use mailbox_sync::cache::CachedMessage;
use mailbox_sync::listing::{find_header, page_of, summarize, DEFAULT_PAGE_SIZE};
use mailbox_sync::types::{GetEmailsOptions, GmailHeader};

fn row(id: &str) -> CachedMessage {
    CachedMessage {
        message_id: id.to_string(),
        thread_id: format!("t-{}", id),
        headers_json: "[{\"name\":\"from\",\"value\":\"a@x\"},{\"name\":\"Subject\",\"value\":\"s\"},{\"name\":\"DATE\",\"value\":\"d\"},{\"name\":\"From\",\"value\":\"second\"}]".to_string(),
        label_ids_json: "[\"INBOX\",\"unread\"]".to_string(),
        snippet: format!("snip {}", id),
        internal_date: 99,
        synced_history_id: Some(3),
    }
}

fn rows(n: usize) -> Vec<CachedMessage> {
    (0..n).map(|i| row(&format!("m{}", i))).collect()
}

fn options(max_results: Option<u32>, page_token: Option<&str>) -> GetEmailsOptions {
    GetEmailsOptions {
        max_results,
        page_token: page_token.map(|t| t.to_string()),
        label_ids: String::new(),
    }
}

fn page_ids(list: &[mailbox_sync::types::EmailMessage]) -> Vec<String> {
    list.iter().map(|m| m.id.clone()).collect()
}

#[test]
fn find_header_takes_the_first_match_ignoring_case() {
    let headers = vec![
        GmailHeader { name: "X".to_string(), value: "1".to_string() },
        GmailHeader { name: "content-id".to_string(), value: "2".to_string() },
        GmailHeader { name: "Content-ID".to_string(), value: "3".to_string() },
    ];
    assert_eq!(find_header(&headers, "Content-Id"), "2");
    assert_eq!(find_header(&headers, "x"), "1");
    assert_eq!(find_header(&headers, "Y"), "");
    assert_eq!(find_header(&Vec::new(), "x"), "");
}

#[test]
fn a_summary_shows_what_a_list_needs() {
    let e = summarize(&row("m"));
    assert_eq!(e.id, "m");
    assert_eq!(e.thread_id, "t-m");
    assert_eq!(e.label_ids, vec!["INBOX", "unread"]);
    assert_eq!(e.from, "a@x");
    assert_eq!(e.to, "");
    assert_eq!(e.subject, "s");
    assert_eq!(e.date, "d");
    assert_eq!(e.snippet, "snip m");
    assert_eq!(e.body, "");
    assert!(e.unread);
    assert!(!e.has_attachment);
    assert!(e.attachments.is_empty());
    assert!(e.inline_images.is_empty());
    assert_eq!(e.internal_date, Some(99));
}

#[test]
fn a_summary_of_a_row_with_unreadable_json_is_bare() {
    let mut m = row("m");
    m.headers_json = "oops".to_string();
    m.label_ids_json = "oops".to_string();
    let e = summarize(&m);
    assert_eq!(e.from, "");
    assert_eq!(e.subject, "");
    assert!(e.label_ids.is_empty());
    assert!(!e.unread);
}

#[test]
fn the_first_page_has_the_default_size() {
    assert_eq!(DEFAULT_PAGE_SIZE, 20);
    let page = page_of(&rows(45), &options(None, None));
    assert_eq!(page.messages.len(), 20);
    assert_eq!(page.messages[0].id, "m0");
    assert_eq!(page.messages[19].id, "m19");
    assert_eq!(page.next_page_token, Some("20".to_string()));
}

#[test]
fn pages_follow_each_other_by_offset_token() {
    let items = rows(45);
    let second = page_of(&items, &options(None, Some("20")));
    assert_eq!(second.messages[0].id, "m20");
    assert_eq!(second.messages.len(), 20);
    assert_eq!(second.next_page_token, Some("40".to_string()));
    let third = page_of(&items, &options(None, Some("40")));
    assert_eq!(page_ids(&third.messages), vec!["m40", "m41", "m42", "m43", "m44"]);
    assert_eq!(third.next_page_token, None);
}

#[test]
fn a_page_that_ends_with_the_listing_has_no_next_token() {
    let page = page_of(&rows(3), &options(Some(3), None));
    assert_eq!(page.messages.len(), 3);
    assert_eq!(page.next_page_token, None);
    let page = page_of(&rows(3), &options(Some(2), Some("1")));
    assert_eq!(page_ids(&page.messages), vec!["m1", "m2"]);
    assert_eq!(page.next_page_token, None);
}

#[test]
fn an_offset_past_the_end_gives_an_empty_page() {
    let page = page_of(&rows(3), &options(Some(2), Some("3")));
    assert!(page.messages.is_empty());
    assert_eq!(page.next_page_token, None);
    let page = page_of(&rows(3), &options(Some(2), Some("1000")));
    assert!(page.messages.is_empty());
    assert_eq!(page.next_page_token, None);
    let page = page_of(&rows(0), &options(None, None));
    assert!(page.messages.is_empty());
    assert_eq!(page.next_page_token, None);
}

#[test]
fn an_unreadable_token_is_offset_zero() {
    for token in ["", "abc", "-1", "1.5", " 2", "99999999999999999999999999"] {
        let page = page_of(&rows(3), &options(Some(1), Some(token)));
        assert_eq!(page_ids(&page.messages), vec!["m0"]);
        assert_eq!(page.next_page_token, Some("1".to_string()));
    }
    let page = page_of(&rows(3), &options(Some(1), Some("+2")));
    assert_eq!(page_ids(&page.messages), vec!["m2"]);
}

#[test]
fn a_page_size_of_zero_gives_an_empty_page_at_the_same_offset() {
    let page = page_of(&rows(3), &options(Some(0), Some("1")));
    assert!(page.messages.is_empty());
    assert_eq!(page.next_page_token, Some("1".to_string()));
}

#[test]
fn a_huge_page_size_returns_the_rest() {
    let page = page_of(&rows(5), &options(Some(u32::MAX), Some("2")));
    assert_eq!(page_ids(&page.messages), vec!["m2", "m3", "m4"]);
    assert_eq!(page.next_page_token, None);
}

#[test]
fn the_next_token_is_the_offset_in_decimal() {
    let page = page_of(&rows(1500), &options(Some(1234), None));
    assert_eq!(page.next_page_token, Some("1234".to_string()));
    let page = page_of(&rows(12), &options(Some(10), None));
    assert_eq!(page.next_page_token, Some("10".to_string()));
}

use mailbox_sync::cache::CachedMessage;
use mailbox_sync::stats::{
    dated_since, label_stat, mailbox_stats, reported_today_stats, today_stats,
};
use mailbox_sync::types::{GmailLabelResponse, MailboxStat, TodayStats};

fn with_labels(id: &str, labels_json: &str) -> CachedMessage {
    CachedMessage {
        message_id: id.to_string(),
        thread_id: "t".to_string(),
        headers_json: "[]".to_string(),
        label_ids_json: labels_json.to_string(),
        snippet: String::new(),
        internal_date: 0,
        synced_history_id: None,
    }
}

fn dated(id: &str, date: &str, labels_json: &str) -> CachedMessage {
    let mut m = with_labels(id, labels_json);
    m.headers_json = format!("[{{\"name\":\"Date\",\"value\":\"{}\"}}]", date);
    m
}

fn stat(id: &str, total: i64, unread: i64) -> MailboxStat {
    MailboxStat { id: id.to_string(), name: id.to_string(), total, unread }
}

fn sorted(mut stats: Vec<MailboxStat>) -> Vec<MailboxStat> {
    stats.sort_by(|a, b| a.id.cmp(&b.id));
    stats
}

#[test]
fn each_label_counts_its_messages_and_its_unread_messages() {
    let items = vec![
        with_labels("a", "[\"INBOX\",\"UNREAD\"]"),
        with_labels("b", "[\"INBOX\"]"),
        with_labels("c", "[\"SENT\"]"),
        with_labels("d", "[\"INBOX\",\"STARRED\",\"UNREAD\"]"),
    ];
    assert_eq!(
        sorted(mailbox_stats(&items).stats),
        vec![stat("INBOX", 3, 2), stat("SENT", 1, 0), stat("STARRED", 1, 1), stat("UNREAD", 2, 2)]
    );
}

#[test]
fn a_sent_trashed_or_spam_message_is_no_draft() {
    let items = vec![
        with_labels("a", "[\"DRAFT\"]"),
        with_labels("b", "[\"DRAFT\",\"SENT\"]"),
        with_labels("c", "[\"DRAFT\",\"TRASH\",\"UNREAD\"]"),
        with_labels("d", "[\"SPAM\",\"DRAFT\"]"),
        with_labels("e", "[\"DRAFT\",\"UNREAD\"]"),
    ];
    assert_eq!(
        sorted(mailbox_stats(&items).stats),
        vec![
            stat("DRAFT", 2, 1),
            stat("SENT", 1, 0),
            stat("SPAM", 1, 0),
            stat("TRASH", 1, 1),
            stat("UNREAD", 2, 2)
        ]
    );
}

#[test]
fn a_label_that_only_excluded_drafts_carry_is_listed_with_zero() {
    let items = vec![with_labels("b", "[\"draft\",\"SENT\"]")];
    assert_eq!(sorted(mailbox_stats(&items).stats), vec![stat("SENT", 1, 0), stat("draft", 0, 0)]);
}

#[test]
fn labels_are_counted_by_their_exact_text() {
    let items = vec![with_labels("a", "[\"Inbox\"]"), with_labels("b", "[\"INBOX\",\"INBOX\"]")];
    assert_eq!(sorted(mailbox_stats(&items).stats), vec![stat("INBOX", 2, 0), stat("Inbox", 1, 0)]);
}

#[test]
fn no_messages_give_no_counters() {
    assert!(mailbox_stats(&Vec::new()).stats.is_empty());
    assert!(mailbox_stats(&vec![with_labels("a", "[]"), with_labels("b", "bad")]).stats.is_empty());
}

#[test]
fn a_reported_label_becomes_a_counter() {
    let label = GmailLabelResponse {
        id: "INBOX".to_string(),
        name: "Inbox".to_string(),
        messages_total: Some(12),
        messages_unread: None,
    };
    assert_eq!(
        label_stat(label),
        MailboxStat { id: "INBOX".to_string(), name: "Inbox".to_string(), total: 12, unread: 0 }
    );
}

#[test]
fn a_message_is_dated_by_its_date_header() {
    let m = dated("a", "Wed, 18 Feb 2015 23:16:09 GMT", "[]");
    assert!(dated_since(&m, 1424301369));
    assert!(!dated_since(&m, 1424301370));
    assert!(dated_since(&m, 0));
    let m = dated("a", "Wed, 18 Feb 2015 23:16:09 +0100", "[]");
    assert!(dated_since(&m, 1424301369 - 3600));
    assert!(!dated_since(&m, 1424301369 - 3599));
}

#[test]
fn a_message_without_a_readable_date_is_not_of_today() {
    assert!(!dated_since(&with_labels("a", "[]"), i64::MIN));
    assert!(!dated_since(&dated("a", "yesterday", "[]"), i64::MIN));
    assert!(!dated_since(&dated("a", "2015-02-18T23:16:09Z", "[]"), i64::MIN));
}

#[test]
fn today_counts_messages_since_the_start_of_the_day() {
    let day_start = 1424217600; // 2015-02-18 00:00:00 UTC
    let items = vec![
        dated("a", "Wed, 18 Feb 2015 00:00:00 +0000", "[\"INBOX\",\"UNREAD\"]"),
        dated("b", "Tue, 17 Feb 2015 23:59:59 +0000", "[\"INBOX\",\"UNREAD\"]"),
        dated("c", "Wed, 18 Feb 2015 12:00:00 +0000", "[\"INBOX\"]"),
        dated("d", "Thu, 19 Feb 2015 01:00:00 +0200", "[\"unread\"]"),
        dated("e", "Wed, 18 Feb 2015 00:30:00 +0100", "[\"UNREAD\"]"),
        with_labels("f", "[\"UNREAD\"]"),
    ];
    assert_eq!(today_stats(&items, day_start), TodayStats { total_today: 3, unread_today: 2 });
    assert_eq!(today_stats(&items, i64::MAX), TodayStats { total_today: 0, unread_today: 0 });
    assert_eq!(today_stats(&Vec::new(), 0), TodayStats { total_today: 0, unread_today: 0 });
}

#[test]
fn reported_counters_are_read_from_json() {
    assert_eq!(
        reported_today_stats("{\"totalToday\":7,\"unreadToday\":2}"),
        Some(TodayStats { total_today: 7, unread_today: 2 })
    );
    assert_eq!(
        reported_today_stats("{\"totalToday\":\"7\"}"),
        Some(TodayStats { total_today: 0, unread_today: 0 })
    );
    assert_eq!(
        reported_today_stats("{\"unreadToday\":3.5,\"totalToday\":4}"),
        Some(TodayStats { total_today: 4, unread_today: 0 })
    );
    assert_eq!(reported_today_stats("[]"), Some(TodayStats { total_today: 0, unread_today: 0 }));
    assert_eq!(reported_today_stats("nothing"), None);
}

use mailbox_sync::cache::Cache;
use mailbox_sync::codec::decode_labels;
use mailbox_sync::buckets::{bucket_label, BUCKET_COUNT, RESYNC_PAGE_SIZE};
use mailbox_sync::cursor::read_cursor;
use mailbox_sync::mirror::to_cached_message;
use mailbox_sync::sync::{SyncEvent, SyncManager, SyncPhase, SyncRequest};
use mailbox_sync::types::{GmailBody, GmailHeader, GmailMessage, GmailMessageRef, GmailPart};

fn full_message(id: &str, labels: &[&str], date: Option<&str>) -> GmailMessage {
    GmailMessage {
        id: id.to_string(),
        thread_id: format!("thread-{}", id),
        label_ids: labels.iter().map(|l| l.to_string()).collect(),
        snippet: format!("snippet of {}", id),
        internal_date: date.map(|d| d.to_string()),
        payload: GmailPart {
            part_id: None,
            mime_type: "text/plain".to_string(),
            filename: None,
            headers: Some(vec![GmailHeader {
                name: "Subject".to_string(),
                value: format!("About {}", id),
            }]),
            body: GmailBody::default(),
            parts: None,
        },
    }
}

fn reference(id: &str) -> GmailMessageRef {
    GmailMessageRef { id: id.to_string(), thread_id: format!("thread-{}", id) }
}

fn fetch(ids: &[&str]) -> SyncRequest {
    SyncRequest::FetchMessages { ids: ids.iter().map(|s| s.to_string()).collect() }
}

fn stored_ids(cache: &Cache) -> Vec<String> {
    let mut ids: Vec<String> =
        cache.load_all_messages().iter().map(|m| m.message_id.clone()).collect();
    ids.sort();
    ids
}

/// Walks a pass through the buckets from `from` on, each with an empty listing.
fn skip_buckets(engine: &mut SyncManager, from: usize, page_size: u32) -> SyncRequest {
    let mut request = SyncRequest::ListLabel { bucket: from, max_results: page_size };
    for bucket in from..BUCKET_COUNT {
        assert_eq!(request, SyncRequest::ListLabel { bucket, max_results: page_size });
        request = engine.on_listing(Some(Vec::new()));
    }
    request
}

#[test]
fn buckets_are_the_eleven_known_labels() {
    assert_eq!(BUCKET_COUNT, 11);
    let labels: Vec<&str> = (0..BUCKET_COUNT).map(|i| bucket_label(i).unwrap()).collect();
    assert_eq!(
        labels,
        vec![
            "INBOX",
            "SENT",
            "DRAFT",
            "STARRED",
            "TRASH",
            "SPAM",
            "CATEGORY_PERSONAL",
            "CATEGORY_SOCIAL",
            "CATEGORY_PROMOTIONS",
            "CATEGORY_UPDATES",
            "CATEGORY_FORUMS"
        ]
    );
    assert_eq!(bucket_label(11), None);
    assert_eq!(bucket_label(usize::MAX), None);
}

#[test]
fn a_fetched_message_becomes_a_row() {
    let row = to_cached_message(&full_message("a", &["INBOX", "UNREAD"], Some("1700000000123")), Some(9));
    assert_eq!(row.message_id, "a");
    assert_eq!(row.thread_id, "thread-a");
    assert_eq!(row.snippet, "snippet of a");
    assert_eq!(row.internal_date, 1700000000123);
    assert_eq!(row.synced_history_id, Some(9));
    assert_eq!(row.label_ids_json, "[\"INBOX\",\"UNREAD\"]");
    assert_eq!(row.headers_json, "[{\"name\":\"Subject\",\"value\":\"About a\"}]");
}

#[test]
fn an_unreadable_receipt_time_is_zero() {
    assert_eq!(to_cached_message(&full_message("a", &[], None), None).internal_date, 0);
    assert_eq!(to_cached_message(&full_message("a", &[], Some("")), None).internal_date, 0);
    assert_eq!(to_cached_message(&full_message("a", &[], Some("12x")), None).internal_date, 0);
    assert_eq!(to_cached_message(&full_message("a", &[], Some(" 12")), None).internal_date, 0);
    assert_eq!(
        to_cached_message(&full_message("a", &[], Some("9223372036854775808")), None).internal_date,
        0
    );
    assert_eq!(
        to_cached_message(&full_message("a", &[], Some("9223372036854775807")), None).internal_date,
        i64::MAX
    );
    assert_eq!(to_cached_message(&full_message("a", &[], Some("-5")), None).internal_date, -5);
    assert_eq!(to_cached_message(&full_message("a", &[], Some("+5")), None).internal_date, 5);
}

#[test]
fn a_message_without_headers_stores_an_empty_list() {
    let mut full = full_message("a", &[], None);
    full.payload.headers = None;
    let row = to_cached_message(&full, None);
    assert_eq!(row.headers_json, "[]");
    assert_eq!(row.label_ids_json, "[]");
}

#[test]
fn read_cursor_reads_a_decimal_number() {
    let mut cache = Cache::new();
    assert_eq!(read_cursor(&mut cache), None);
    cache.set_meta("last_history_id", " 100\n");
    assert_eq!(read_cursor(&mut cache), Some(100));
    assert_eq!(cache.get_meta("last_history_id"), Some(" 100\n".to_string()));
}

#[test]
fn read_cursor_deletes_a_corrupt_value() {
    for corrupt in ["abc", "", "  ", "12.5", "1e3", "99999999999999999999"] {
        let mut cache = Cache::new();
        cache.set_meta("last_history_id", corrupt);
        cache.set_meta("other", "kept");
        assert_eq!(read_cursor(&mut cache), None);
        assert_eq!(cache.get_meta("last_history_id"), None);
        assert_eq!(cache.get_meta("other"), Some("kept".to_string()));
    }
}

#[test]
fn bootstrap_stores_each_message_once() {
    let mut engine = SyncManager::new(Cache::new());
    assert_eq!(engine.initial_sync(true, 100), SyncRequest::ReadBaseline);
    assert_eq!(
        engine.on_baseline(Some("500".to_string())),
        SyncRequest::ListLabel { bucket: 0, max_results: 100 }
    );
    assert_eq!(engine.cache.get_meta("last_history_id"), None);
    assert_eq!(
        engine.on_listing(Some(vec![reference("A"), reference("B")])),
        fetch(&["A", "B"])
    );
    assert_eq!(
        engine.on_message(Some(full_message("A", &["INBOX", "SENT"], Some("10")))),
        fetch(&[])
    );
    assert_eq!(
        engine.on_message(Some(full_message("B", &["INBOX"], Some("20")))),
        SyncRequest::ListLabel { bucket: 1, max_results: 100 }
    );
    assert_eq!(
        engine.on_listing(Some(vec![reference("A")])),
        SyncRequest::ListLabel { bucket: 2, max_results: 100 }
    );
    assert_eq!(skip_buckets(&mut engine, 2, 100), SyncRequest::Wait);

    assert_eq!(stored_ids(&engine.cache), vec!["A", "B"]);
    let all = engine.cache.load_all_messages();
    let a = all.iter().find(|m| m.message_id == "A").unwrap();
    assert_eq!(decode_labels(&a.label_ids_json), vec!["INBOX", "SENT"]);
    assert_eq!(a.snippet, "snippet of A");
    assert_eq!(a.synced_history_id, None);
    assert_eq!(engine.cache.get_meta("last_history_id"), Some("500".to_string()));
    assert!(matches!(engine.phase, SyncPhase::Idle));
}

#[test]
fn bootstrap_fetches_a_message_once() {
    let mut engine = SyncManager::new(Cache::new());
    engine.initial_sync(true, 100);
    engine.on_baseline(Some("500".to_string()));
    assert_eq!(
        engine.on_listing(Some(vec![reference("A"), reference("B"), reference("A")])),
        fetch(&["A", "B"])
    );
    assert_eq!(engine.on_message(None), fetch(&[]));
    assert_eq!(
        engine.on_message(Some(full_message("B", &["INBOX"], None))),
        SyncRequest::ListLabel { bucket: 1, max_results: 100 }
    );
    assert_eq!(
        engine.on_listing(Some(vec![reference("B"), reference("A"), reference("C")])),
        fetch(&["A", "C"])
    );
    engine.on_message(Some(full_message("C", &["SENT"], None)));
    let mut late = full_message("C", &["SENT"], None);
    late.snippet = "a second copy".to_string();
    assert_eq!(
        engine.on_message(Some(late)),
        SyncRequest::ListLabel { bucket: 2, max_results: 100 }
    );
    assert_eq!(stored_ids(&engine.cache), vec!["B", "C"]);
    let all = engine.cache.load_all_messages();
    assert_eq!(all.iter().find(|m| m.message_id == "C").unwrap().snippet, "snippet of C");
}

#[test]
fn a_recovery_pass_fetches_stored_messages_again() {
    let mut engine = SyncManager::new(Cache::new());
    engine.cache.upsert_message(&to_cached_message(&full_message("A", &["INBOX"], None), None));
    engine.cache.set_meta("last_history_id", "100");
    engine.tick(true);
    engine.on_history(Some(400), "");
    assert_eq!(
        engine.on_listing(Some(vec![reference("A"), reference("A")])),
        fetch(&["A", "A"])
    );
    engine.on_message(Some(full_message("A", &["INBOX", "STARRED"], None)));
    assert_eq!(
        engine.on_message(Some(full_message("A", &["STARRED"], None))),
        SyncRequest::ListLabel { bucket: 1, max_results: RESYNC_PAGE_SIZE }
    );
    assert_eq!(engine.cache.load_all_messages()[0].label_ids_json, "[\"STARRED\"]");
}

#[test]
fn bootstrap_clears_the_cache_first() {
    let mut cache = Cache::new();
    cache.upsert_message(&to_cached_message(&full_message("old", &["INBOX"], None), None));
    cache.set_meta("last_history_id", "1");
    let mut engine = SyncManager::new(cache);
    engine.initial_sync(true, 50);
    assert_eq!(stored_ids(&engine.cache), vec!["old"]);
    engine.on_baseline(Some("2".to_string()));
    assert_eq!(stored_ids(&engine.cache), Vec::<String>::new());
    assert_eq!(engine.cache.get_meta("last_history_id"), Some("1".to_string()));
    assert_eq!(skip_buckets(&mut engine, 0, 50), SyncRequest::Wait);
    assert_eq!(engine.cache.get_meta("last_history_id"), Some("2".to_string()));
}

#[test]
fn bootstrap_fails_without_a_credential() {
    let mut cache = Cache::new();
    cache.upsert_message(&to_cached_message(&full_message("old", &["INBOX"], None), None));
    cache.set_meta("last_history_id", "1");
    let mut engine = SyncManager::new(cache);
    assert_eq!(engine.initial_sync(false, 50), SyncRequest::Failed);
    assert!(matches!(engine.phase, SyncPhase::Idle));
    assert_eq!(stored_ids(&engine.cache), vec!["old"]);
    assert_eq!(engine.cache.get_meta("last_history_id"), Some("1".to_string()));
}

#[test]
fn bootstrap_fails_without_a_baseline() {
    let mut cache = Cache::new();
    cache.upsert_message(&to_cached_message(&full_message("old", &["INBOX"], None), None));
    let mut engine = SyncManager::new(cache);
    engine.initial_sync(true, 50);
    assert_eq!(engine.on_baseline(None), SyncRequest::Failed);
    assert!(matches!(engine.phase, SyncPhase::Idle));
    assert_eq!(stored_ids(&engine.cache), vec!["old"]);
    assert_eq!(engine.cache.get_meta("last_history_id"), None);
}

#[test]
fn a_failed_fetch_or_listing_does_not_stop_the_pass() {
    let mut engine = SyncManager::new(Cache::new());
    engine.initial_sync(true, 10);
    engine.on_baseline(Some("7".to_string()));
    assert_eq!(engine.on_listing(None), SyncRequest::ListLabel { bucket: 1, max_results: 10 });
    assert_eq!(
        engine.on_listing(Some(vec![reference("x"), reference("y")])),
        fetch(&["x", "y"])
    );
    assert_eq!(engine.on_message(None), fetch(&[]));
    assert_eq!(
        engine.on_message(Some(full_message("y", &["SENT"], None))),
        SyncRequest::ListLabel { bucket: 2, max_results: 10 }
    );
    assert_eq!(skip_buckets(&mut engine, 2, 10), SyncRequest::Wait);
    assert_eq!(stored_ids(&engine.cache), vec!["y"]);
    assert_eq!(engine.cache.get_meta("last_history_id"), Some("7".to_string()));
}

#[test]
fn a_pass_keeps_at_most_eight_fetches_in_flight() {
    let mut engine = SyncManager::new(Cache::new());
    engine.initial_sync(true, 100);
    engine.on_baseline(Some("7".to_string()));
    let names: Vec<String> = (0..20).map(|i| format!("m{:02}", i)).collect();
    let refs: Vec<GmailMessageRef> = names.iter().map(|n| reference(n)).collect();
    let mut in_flight: Vec<String> = Vec::new();
    let mut request = engine.on_listing(Some(refs));
    let mut fetched = 0;
    loop {
        match request {
            SyncRequest::FetchMessages { ids } => in_flight.extend(ids),
            SyncRequest::ListLabel { bucket, .. } => {
                assert_eq!(bucket, 1);
                break;
            }
            other => panic!("unexpected {:?}", other),
        }
        assert!(in_flight.len() <= 8);
        if let SyncPhase::Fetching { fan, .. } = &engine.phase {
            assert_eq!(fan.fetches_in_flight(), in_flight.len());
        }
        let done = in_flight.pop().unwrap();
        fetched += 1;
        request = engine.on_message(Some(full_message(&done, &["INBOX"], None)));
    }
    assert_eq!(fetched, 20);
    assert!(in_flight.is_empty());
    let mut expected = names.clone();
    expected.sort();
    assert_eq!(stored_ids(&engine.cache), expected);
}

#[test]
fn tick_without_credential_or_cursor_does_nothing() {
    let mut engine = SyncManager::new(Cache::new());
    assert_eq!(engine.tick(true), SyncRequest::Wait);
    engine.cache.set_meta("last_history_id", "100");
    assert_eq!(engine.tick(false), SyncRequest::Wait);
    assert!(matches!(engine.phase, SyncPhase::Idle));
    assert_eq!(engine.tick(true), SyncRequest::ListHistory { start: 100 });
    assert!(matches!(engine.phase, SyncPhase::AwaitingHistory { start: 100 }));
    assert_eq!(engine.tick(true), SyncRequest::Wait);
    assert!(matches!(engine.phase, SyncPhase::AwaitingHistory { start: 100 }));
}

#[test]
fn tick_deletes_a_corrupt_cursor_and_skips() {
    let mut engine = SyncManager::new(Cache::new());
    engine.cache.set_meta("last_history_id", "not a number");
    assert_eq!(engine.tick(true), SyncRequest::Wait);
    assert_eq!(engine.cache.get_meta("last_history_id"), None);
    assert!(matches!(engine.phase, SyncPhase::Idle));
}

#[test]
fn added_then_deleted_in_one_response_leaves_no_row() {
    let mut engine = SyncManager::new(Cache::new());
    engine.cache.set_meta("last_history_id", "100");
    assert_eq!(engine.tick(true), SyncRequest::ListHistory { start: 100 });
    let body = r#"{"history":[
        {"messagesAdded":[{"message":{"id":"C"}}]},
        {"messagesDeleted":[{"message":{"id":"C"}}]}
    ],"historyId":"101"}"#;
    assert_eq!(engine.on_history(Some(200), body), fetch(&["C"]));
    assert_eq!(
        engine.on_message(Some(full_message("C", &["INBOX"], Some("5")))),
        SyncRequest::Wait
    );
    assert!(!engine.cache.contains_message("C"));
    assert_eq!(engine.cache.message_count(), 0);
    assert_eq!(engine.cache.get_meta("last_history_id"), Some("101".to_string()));
    assert!(matches!(engine.phase, SyncPhase::Idle));
}

#[test]
fn deleted_then_added_in_one_response_leaves_the_row() {
    let mut engine = SyncManager::new(Cache::new());
    engine.cache.upsert_message(&to_cached_message(&full_message("C", &["OLD"], None), None));
    engine.cache.set_meta("last_history_id", "100");
    engine.tick(true);
    let body = r#"{"history":[
        {"messagesDeleted":[{"message":{"id":"C"}}]},
        {"messagesAdded":[{"message":{"id":"C"}}]}
    ],"historyId":"101"}"#;
    assert_eq!(engine.on_history(Some(200), body), fetch(&["C"]));
    assert!(!engine.cache.contains_message("C"));
    assert_eq!(engine.on_message(Some(full_message("C", &["NEW"], None))), SyncRequest::Wait);
    let all = engine.cache.load_all_messages();
    assert_eq!(all.len(), 1);
    assert_eq!(all[0].label_ids_json, "[\"NEW\"]");
}

#[test]
fn changes_are_applied_and_the_cursor_advances() {
    let mut engine = SyncManager::new(Cache::new());
    engine.cache.upsert_message(&to_cached_message(&full_message("gone", &["INBOX"], None), None));
    engine.cache.upsert_message(&to_cached_message(&full_message("kept", &["INBOX"], None), None));
    engine.cache.upsert_message(&to_cached_message(&full_message("moved", &["INBOX"], None), None));
    engine.cache.set_meta("last_history_id", "100");
    engine.tick(true);
    let body = r#"{"history":[
        {"messagesDeleted":[{"message":{"id":"gone"}}]},
        {"labelsAdded":[{"message":{"id":"moved"}}]},
        {"messagesAdded":[{"message":{"id":"new"}}]},
        {"labelsRemoved":[{"message":{"id":"moved"}}]}
    ],"historyId":"150"}"#;
    assert_eq!(engine.on_history(Some(200), body), fetch(&["moved"]));
    assert!(!engine.cache.contains_message("gone"));
    assert_eq!(engine.cache.get_meta("last_history_id"), Some("100".to_string()));
    assert_eq!(
        engine.on_message(Some(full_message("moved", &["INBOX", "STARRED"], None))),
        fetch(&["new"])
    );
    assert_eq!(engine.on_message(Some(full_message("new", &["INBOX"], None))), fetch(&["moved"]));
    assert_eq!(
        engine.on_message(Some(full_message("moved", &["STARRED"], None))),
        SyncRequest::Wait
    );
    assert_eq!(stored_ids(&engine.cache), vec!["kept", "moved", "new"]);
    let all = engine.cache.load_all_messages();
    let moved = all.iter().find(|m| m.message_id == "moved").unwrap();
    assert_eq!(moved.label_ids_json, "[\"STARRED\"]");
    assert_eq!(engine.cache.get_meta("last_history_id"), Some("150".to_string()));
}

#[test]
fn the_cursor_advances_even_when_a_fetch_failed() {
    let mut engine = SyncManager::new(Cache::new());
    engine.cache.set_meta("last_history_id", "100");
    engine.tick(true);
    let body = r#"{"history":[{"messagesAdded":[{"message":{"id":"a"}},{"message":{"id":"b"}}]}],"historyId":"160"}"#;
    assert_eq!(engine.on_history(Some(200), body), fetch(&["a"]));
    assert_eq!(engine.on_message(None), fetch(&["b"]));
    assert_eq!(engine.on_message(Some(full_message("b", &[], None))), SyncRequest::Wait);
    assert_eq!(stored_ids(&engine.cache), vec!["b"]);
    assert_eq!(engine.cache.get_meta("last_history_id"), Some("160".to_string()));
}

#[test]
fn a_numeric_history_id_is_recorded_on_the_rows_but_is_no_cursor() {
    let mut engine = SyncManager::new(Cache::new());
    engine.cache.set_meta("last_history_id", "100");
    engine.tick(true);
    let body = r#"{"history":[{"messagesAdded":[{"message":{"id":"a"}}]}],"historyId":170}"#;
    assert_eq!(engine.on_history(Some(200), body), fetch(&["a"]));
    assert_eq!(engine.on_message(Some(full_message("a", &[], None))), SyncRequest::Wait);
    assert_eq!(engine.cache.load_all_messages()[0].synced_history_id, Some(170));
    assert_eq!(engine.cache.get_meta("last_history_id"), Some("100".to_string()));
}

#[test]
fn a_response_without_changes_only_advances_the_cursor() {
    let mut engine = SyncManager::new(Cache::new());
    engine.cache.set_meta("last_history_id", "100");
    engine.tick(true);
    assert_eq!(engine.on_history(Some(200), r#"{"historyId":"101"}"#), SyncRequest::Wait);
    assert_eq!(engine.cache.get_meta("last_history_id"), Some("101".to_string()));
    assert!(matches!(engine.phase, SyncPhase::Idle));
}

#[test]
fn other_failures_leave_the_state_untouched() {
    for (status, body) in [
        (Some(500u16), "{}"),
        (Some(401), "{}"),
        (Some(404), r#"{"historyId":"9"}"#),
        (None, ""),
        (Some(200), "not json"),
    ] {
        let mut engine = SyncManager::new(Cache::new());
        engine.cache.upsert_message(&to_cached_message(&full_message("a", &[], None), None));
        engine.cache.set_meta("last_history_id", "100");
        engine.tick(true);
        assert_eq!(engine.on_history(status, body), SyncRequest::Wait);
        assert_eq!(engine.cache.get_meta("last_history_id"), Some("100".to_string()));
        assert_eq!(stored_ids(&engine.cache), vec!["a"]);
        assert!(matches!(engine.phase, SyncPhase::Idle));
        assert_eq!(engine.tick(true), SyncRequest::ListHistory { start: 100 });
    }
}

#[test]
fn a_rejected_cursor_is_replaced_after_a_resync() {
    let mut engine = SyncManager::new(Cache::new());
    engine.cache.upsert_message(&to_cached_message(&full_message("old", &["INBOX"], None), None));
    engine.cache.upsert_message(&to_cached_message(&full_message("stale", &["INBOX"], None), None));
    engine.cache.set_meta("last_history_id", "100");
    assert_eq!(engine.tick(true), SyncRequest::ListHistory { start: 100 });

    assert_eq!(
        engine.on_history(Some(400), "{\"error\":\"bad\"}"),
        SyncRequest::ListLabel { bucket: 0, max_results: RESYNC_PAGE_SIZE }
    );
    assert_eq!(engine.cache.get_meta("last_history_id"), None);
    assert_eq!(engine.tick(true), SyncRequest::Wait);

    assert_eq!(
        engine.on_listing(Some(vec![reference("stale"), reference("fresh")])),
        fetch(&["stale", "fresh"])
    );
    assert_eq!(
        engine.on_message(Some(full_message("fresh", &["INBOX"], None))),
        fetch(&[])
    );
    assert_eq!(
        engine.on_message(Some(full_message("stale", &["INBOX", "STARRED"], None))),
        SyncRequest::ListLabel { bucket: 1, max_results: RESYNC_PAGE_SIZE }
    );
    assert_eq!(skip_buckets(&mut engine, 1, RESYNC_PAGE_SIZE), SyncRequest::ReadBaseline);
    assert_eq!(engine.cache.get_meta("last_history_id"), None);
    assert_eq!(engine.on_baseline(Some("205".to_string())), SyncRequest::Wait);

    assert_eq!(engine.cache.get_meta("last_history_id"), Some("205".to_string()));
    assert_eq!(stored_ids(&engine.cache), vec!["fresh", "old", "stale"]);
    let all = engine.cache.load_all_messages();
    let stale = all.iter().find(|m| m.message_id == "stale").unwrap();
    assert_eq!(stale.label_ids_json, "[\"INBOX\",\"STARRED\"]");
    assert_eq!(engine.tick(true), SyncRequest::ListHistory { start: 205 });
}

#[test]
fn a_resync_without_a_new_baseline_stores_no_cursor() {
    let mut engine = SyncManager::new(Cache::new());
    engine.cache.set_meta("last_history_id", "100");
    engine.tick(true);
    engine.on_history(Some(400), "");
    assert_eq!(skip_buckets(&mut engine, 0, RESYNC_PAGE_SIZE), SyncRequest::ReadBaseline);
    assert_eq!(engine.on_baseline(None), SyncRequest::Wait);
    assert_eq!(engine.cache.get_meta("last_history_id"), None);
    assert_eq!(engine.tick(true), SyncRequest::Wait);
}

#[test]
fn answers_out_of_turn_are_ignored() {
    let mut engine = SyncManager::new(Cache::new());
    engine.cache.set_meta("last_history_id", "100");
    assert_eq!(engine.on_message(Some(full_message("a", &[], None))), SyncRequest::Wait);
    assert_eq!(engine.on_listing(Some(vec![reference("a")])), SyncRequest::Wait);
    assert_eq!(engine.on_history(Some(400), ""), SyncRequest::Wait);
    assert_eq!(engine.on_baseline(Some("9".to_string())), SyncRequest::Wait);
    assert!(matches!(engine.phase, SyncPhase::Idle));
    assert_eq!(engine.cache.message_count(), 0);
    assert_eq!(engine.cache.get_meta("last_history_id"), Some("100".to_string()));
}

#[test]
fn cached_list_is_filtered_and_newest_first() {
    let mut engine = SyncManager::new(Cache::new());
    engine.cache.upsert_message(&to_cached_message(&full_message("a", &["INBOX"], Some("10")), None));
    engine.cache.upsert_message(&to_cached_message(&full_message("b", &["SENT"], Some("30")), None));
    engine.cache.upsert_message(&to_cached_message(&full_message("c", &["INBOX", "TRASH"], Some("20")), None));
    engine.cache.upsert_message(&to_cached_message(&full_message("d", &["INBOX"], Some("40")), None));
    let ids = |list: Vec<mailbox_sync::cache::CachedMessage>| -> Vec<String> {
        list.into_iter().map(|m| m.message_id).collect()
    };
    assert_eq!(ids(engine.get_cached_metadata_list(0, None, "INBOX")), vec!["d", "a"]);
    assert_eq!(ids(engine.get_cached_metadata_list(0, None, "")), vec!["d", "b", "c", "a"]);
    assert_eq!(ids(engine.get_cached_metadata_list(5, Some("3".to_string()), "TRASH")), vec!["c"]);
}

#[test]
fn a_query_before_any_bootstrap_is_empty() {
    let engine = SyncManager::new(Cache::new());
    assert!(engine.get_cached_metadata_list(20, None, "INBOX").is_empty());
    assert!(engine.get_cached_metadata_list(20, None, "").is_empty());
}

#[test]
fn events_drive_the_engine_through_a_recovery() {
    let mut engine = SyncManager::new(Cache::new());
    engine.cache.set_meta("last_history_id", "100");
    assert_eq!(
        engine.step(SyncEvent::Tick { has_credential: true }),
        SyncRequest::ListHistory { start: 100 }
    );
    assert_eq!(
        engine.step(SyncEvent::History { status: Some(400), body: String::new() }),
        SyncRequest::ListLabel { bucket: 0, max_results: RESYNC_PAGE_SIZE }
    );
    assert_eq!(engine.cache.get_meta("last_history_id"), None);
    assert_eq!(engine.step(SyncEvent::Listing(Some(vec![reference("A")]))), fetch(&["A"]));
    let mut request = engine.step(SyncEvent::Message(Some(full_message("A", &["INBOX"], None))));
    for bucket in 1..BUCKET_COUNT {
        assert_eq!(request, SyncRequest::ListLabel { bucket, max_results: RESYNC_PAGE_SIZE });
        request = engine.step(SyncEvent::Listing(None));
    }
    assert_eq!(request, SyncRequest::ReadBaseline);
    assert_eq!(engine.step(SyncEvent::Baseline(Some("205".to_string()))), SyncRequest::Wait);
    assert_eq!(engine.cache.get_meta("last_history_id"), Some("205".to_string()));
    assert_eq!(stored_ids(&engine.cache), vec!["A"]);
    assert_eq!(
        engine.step(SyncEvent::Tick { has_credential: true }),
        SyncRequest::ListHistory { start: 205 }
    );
}

#[test]
fn events_drive_the_engine_through_a_first_pass() {
    let mut engine = SyncManager::new(Cache::new());
    assert_eq!(
        engine.step(SyncEvent::Bootstrap { has_credential: false, max_results: 10 }),
        SyncRequest::Failed
    );
    assert_eq!(
        engine.step(SyncEvent::Bootstrap { has_credential: true, max_results: 10 }),
        SyncRequest::ReadBaseline
    );
    let mut request = engine.step(SyncEvent::Baseline(Some("9".to_string())));
    for bucket in 0..BUCKET_COUNT {
        assert_eq!(request, SyncRequest::ListLabel { bucket, max_results: 10 });
        request = engine.step(SyncEvent::Listing(Some(Vec::new())));
    }
    assert_eq!(request, SyncRequest::Wait);
    assert_eq!(engine.cache.get_meta("last_history_id"), Some("9".to_string()));
}

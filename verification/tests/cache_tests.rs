use mailbox_sync::cache::{Cache, CacheWrite, CachedMessage};

fn cached(id: &str, thread: &str, date: i64) -> CachedMessage {
    CachedMessage {
        message_id: id.to_string(),
        thread_id: thread.to_string(),
        headers_json: "[]".to_string(),
        label_ids_json: "[\"INBOX\"]".to_string(),
        snippet: String::new(),
        internal_date: date,
        synced_history_id: None,
    }
}

fn ids_of(list: &[CachedMessage]) -> Vec<String> {
    list.iter().map(|m| m.message_id.clone()).collect()
}

#[test]
fn new_cache_is_empty() {
    let cache = Cache::new();
    assert_eq!(cache.message_count(), 0);
    assert!(cache.load_all_messages().is_empty());
    assert!(cache.load_threads_sorted().is_empty());
    assert_eq!(cache.get_meta("last_history_id"), None);
}

#[test]
fn upsert_replaces_the_whole_row() {
    let mut cache = Cache::new();
    let mut first = cached("a", "t1", 10);
    first.synced_history_id = Some(7);
    first.snippet = "first".to_string();
    cache.upsert_message(&first);
    let second = cached("a", "t2", 20);
    cache.upsert_message(&second);
    let all = cache.load_all_messages();
    assert_eq!(all.len(), 1);
    assert_eq!(all[0], second);
    assert_eq!(all[0].synced_history_id, None);
    assert_eq!(all[0].snippet, "");
}

#[test]
fn upsert_twice_is_upsert_once() {
    let mut once = Cache::new();
    once.upsert_message(&cached("a", "t1", 10));
    let mut twice = Cache::new();
    twice.upsert_message(&cached("a", "t1", 10));
    twice.upsert_message(&cached("a", "t1", 10));
    assert_eq!(once.load_all_messages(), twice.load_all_messages());
    assert_eq!(twice.message_count(), 1);
}

#[test]
fn last_write_wins_over_a_sequence() {
    let mut cache = Cache::new();
    cache.upsert_message(&cached("a", "t1", 1));
    cache.upsert_message(&cached("b", "t1", 2));
    cache.upsert_message(&cached("a", "t1", 3));
    cache.upsert_message(&cached("b", "t9", 4));
    cache.upsert_message(&cached("a", "t7", 5));
    let all = cache.load_all_messages();
    assert_eq!(all, vec![cached("a", "t7", 5), cached("b", "t9", 4)]);
}

#[test]
fn delete_removes_exactly_that_row() {
    let mut cache = Cache::new();
    cache.upsert_message(&cached("a", "t1", 10));
    cache.upsert_message(&cached("b", "t1", 20));
    cache.upsert_message(&cached("c", "t2", 30));
    cache.delete_message("b");
    assert_eq!(cache.load_all_messages(), vec![cached("c", "t2", 30), cached("a", "t1", 10)]);
    assert!(!cache.contains_message("b"));
    assert!(cache.contains_message("a"));
    assert!(cache.contains_message("c"));
}

#[test]
fn delete_of_an_absent_id_changes_nothing() {
    let mut cache = Cache::new();
    cache.upsert_message(&cached("a", "t1", 10));
    cache.delete_message("zz");
    assert_eq!(cache.load_all_messages(), vec![cached("a", "t1", 10)]);
}

#[test]
fn load_all_messages_is_newest_first() {
    let mut cache = Cache::new();
    cache.upsert_message(&cached("a", "t1", 10));
    cache.upsert_message(&cached("b", "t1", 30));
    cache.upsert_message(&cached("c", "t2", 20));
    cache.upsert_message(&cached("d", "t2", -5));
    let dates: Vec<i64> = cache.load_all_messages().iter().map(|m| m.internal_date).collect();
    assert_eq!(dates, vec![30, 20, 10, -5]);
    assert_eq!(cache.message_count(), 4);
}

#[test]
fn threads_are_sorted_by_last_activity_and_messages_by_date() {
    let mut cache = Cache::new();
    cache.upsert_message(&cached("a", "t1", 10));
    cache.upsert_message(&cached("b", "t2", 50));
    cache.upsert_message(&cached("c", "t1", 40));
    cache.upsert_message(&cached("d", "t3", 45));
    cache.upsert_message(&cached("e", "t2", 5));
    cache.upsert_message(&cached("f", "t1", 20));
    let threads = cache.load_threads_sorted();
    assert_eq!(threads.len(), 3);
    assert_eq!(threads[0].0, "t2");
    assert_eq!(threads[0].2, 50);
    assert_eq!(ids_of(&threads[0].1), vec!["e", "b"]);
    assert_eq!(threads[1].0, "t3");
    assert_eq!(threads[1].2, 45);
    assert_eq!(ids_of(&threads[1].1), vec!["d"]);
    assert_eq!(threads[2].0, "t1");
    assert_eq!(threads[2].2, 40);
    assert_eq!(ids_of(&threads[2].1), vec!["a", "f", "c"]);
}

#[test]
fn clear_removes_rows_and_keeps_meta() {
    let mut cache = Cache::new();
    cache.upsert_message(&cached("a", "t1", 10));
    cache.set_meta("last_history_id", "42");
    cache.clear_all_messages();
    assert_eq!(cache.message_count(), 0);
    assert_eq!(cache.get_meta("last_history_id"), Some("42".to_string()));
}

#[test]
fn meta_set_get_delete() {
    let mut cache = Cache::new();
    assert_eq!(cache.get_meta("k"), None);
    cache.set_meta("k", "1");
    cache.set_meta("other", "x");
    assert_eq!(cache.get_meta("k"), Some("1".to_string()));
    cache.set_meta("k", "2");
    assert_eq!(cache.get_meta("k"), Some("2".to_string()));
    assert_eq!(cache.get_meta("other"), Some("x".to_string()));
    cache.delete_meta("k");
    assert_eq!(cache.get_meta("k"), None);
    assert_eq!(cache.get_meta("other"), Some("x".to_string()));
    cache.delete_meta("k");
    assert_eq!(cache.get_meta("k"), None);
}

#[test]
fn meta_writes_leave_rows_alone() {
    let mut cache = Cache::new();
    cache.upsert_message(&cached("a", "t1", 10));
    cache.set_meta("k", "1");
    cache.delete_meta("k");
    assert_eq!(cache.load_all_messages(), vec![cached("a", "t1", 10)]);
}

#[test]
fn every_change_is_noted_in_order() {
    let mut cache = Cache::new();
    assert!(cache.take_writes().is_empty());
    cache.upsert_message(&cached("a", "t1", 10));
    cache.set_meta("k", "v");
    cache.delete_message("a");
    cache.delete_message("absent");
    cache.clear_all_messages();
    cache.delete_meta("k");
    assert_eq!(
        cache.take_writes(),
        vec![
            CacheWrite::Upsert(cached("a", "t1", 10)),
            CacheWrite::SetMeta("k".to_string(), "v".to_string()),
            CacheWrite::Delete("a".to_string()),
            CacheWrite::Delete("absent".to_string()),
            CacheWrite::Clear,
            CacheWrite::DeleteMeta("k".to_string()),
        ]
    );
    assert!(cache.take_writes().is_empty());
}

#[test]
fn taking_the_writes_leaves_the_contents() {
    let mut cache = Cache::new();
    cache.upsert_message(&cached("a", "t1", 10));
    cache.set_meta("k", "v");
    cache.take_writes();
    assert_eq!(cache.load_all_messages(), vec![cached("a", "t1", 10)]);
    assert_eq!(cache.get_meta("k"), Some("v".to_string()));
}

#[test]
fn replaying_the_writes_rebuilds_the_cache() {
    let mut cache = Cache::new();
    cache.upsert_message(&cached("a", "t1", 10));
    cache.upsert_message(&cached("b", "t1", 20));
    cache.set_meta("k", "1");
    cache.delete_message("a");
    cache.upsert_message(&cached("b", "t2", 30));
    cache.set_meta("k", "2");
    let mut copy = Cache::new();
    for w in cache.take_writes() {
        match w {
            CacheWrite::Upsert(m) => copy.upsert_message(&m),
            CacheWrite::Delete(id) => copy.delete_message(&id),
            CacheWrite::Clear => copy.clear_all_messages(),
            CacheWrite::SetMeta(k, v) => copy.set_meta(&k, &v),
            CacheWrite::DeleteMeta(k) => copy.delete_meta(&k),
        }
    }
    assert_eq!(copy.load_all_messages(), cache.load_all_messages());
    assert_eq!(copy.get_meta("k"), Some("2".to_string()));
}

#[test]
fn a_restored_cache_holds_the_saved_rows_and_has_nothing_unsaved() {
    let rows = vec![cached("a", "t1", 10), cached("b", "t1", 20), cached("a", "t3", 30)];
    let meta = vec![
        ("k".to_string(), "1".to_string()),
        ("last_history_id".to_string(), "5".to_string()),
        ("k".to_string(), "2".to_string()),
    ];
    let mut cache = Cache::restore(&rows, &meta);
    assert_eq!(cache.load_all_messages(), vec![cached("a", "t3", 30), cached("b", "t1", 20)]);
    assert_eq!(cache.get_meta("k"), Some("2".to_string()));
    assert_eq!(cache.get_meta("last_history_id"), Some("5".to_string()));
    assert!(cache.take_writes().is_empty());
    let mut empty = Cache::restore(&Vec::new(), &Vec::new());
    assert_eq!(empty.message_count(), 0);
    assert!(empty.take_writes().is_empty());
}

use mainteno::commit_log::{append_bounded, push_stored_log, read_stored_log};
use mainteno::store::{fp_key, log_key, patch_key, summary_key, StatusStore};

#[test]
fn store_upserts_and_reads_back() {
    let mut store = StatusStore::new();
    assert!(store.get(&"status".to_string()).is_none());
    store.insert("status".to_string(), "running".to_string());
    assert_eq!(store.get(&"status".to_string()).as_deref(), Some("running"));
    store.insert("status".to_string(), "idle".to_string());
    assert_eq!(store.get(&"status".to_string()).as_deref(), Some("idle"));
    store.insert("other".to_string(), "x".to_string());
    assert_eq!(store.get(&"status".to_string()).as_deref(), Some("idle"));
}

#[test]
fn key_builders_use_the_documented_namespace() {
    assert_eq!(fp_key("p"), "fp:p");
    assert_eq!(summary_key("p"), "summary:p");
    assert_eq!(patch_key("p"), "patch:p");
    assert_eq!(log_key("p"), "log:p");
}

#[test]
fn append_bounded_keeps_the_most_recent_fifty() {
    let mut log: Vec<String> = Vec::new();
    for i in 0..60u32 {
        append_bounded(&mut log, format!("m{}", i));
    }
    assert_eq!(log.len(), 50);
    assert_eq!(log[0], "m10");
    assert_eq!(log[49], "m59");
    // chronological order throughout
    for i in 0..50u32 {
        assert_eq!(log[i as usize], format!("m{}", i + 10));
    }
}

#[test]
fn sixty_pushes_persist_exactly_the_last_fifty() {
    let mut store = StatusStore::new();
    for i in 0..60u32 {
        push_stored_log(&mut store, "proj", format!("commit {}", i));
    }
    let log = read_stored_log(&store, "proj");
    assert_eq!(log.len(), 50);
    for i in 0..50u32 {
        assert_eq!(log[i as usize], format!("commit {}", i + 10));
    }
}

#[test]
fn stored_log_round_trips_through_json() {
    let mut store = StatusStore::new();
    let enc = push_stored_log(&mut store, "p", "first \"quoted\" message".to_string());
    // the persisted value is a JSON array holding exactly the message
    let parsed: Vec<String> = serde_json::from_str(&enc).unwrap();
    assert_eq!(parsed, vec!["first \"quoted\" message".to_string()]);
    let log = read_stored_log(&store, "p");
    assert_eq!(log, parsed);
}

#[test]
fn unreadable_stored_log_reads_as_empty() {
    let mut store = StatusStore::new();
    store.insert("log:p".to_string(), "not json".to_string());
    assert_eq!(read_stored_log(&store, "p").len(), 0);
}

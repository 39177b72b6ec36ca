use masto_to_tw::sync_status::SyncState;

#[test]
fn new_state_is_empty() {
    let s = SyncState::new();
    assert!(s.is_empty());
    assert!(!s.contains_key(&"a".to_string()));
    assert!(s.get(&"a".to_string()).is_none());
}

#[test]
fn insert_then_get_returns_the_value() {
    let mut s = SyncState::new();
    s.insert("a".to_string(), "da".to_string());
    assert!(!s.is_empty());
    assert!(s.contains_key(&"a".to_string()));
    assert_eq!(s.get(&"a".to_string()).unwrap(), "da");
}

#[test]
fn later_insert_overwrites() {
    let mut s = SyncState::new();
    s.insert("a".to_string(), "first".to_string());
    s.insert("a".to_string(), "second".to_string());
    assert_eq!(s.get(&"a".to_string()).unwrap(), "second");
}

#[test]
fn empty_destination_id_still_marks_handled() {
    let mut s = SyncState::new();
    s.insert("a".to_string(), String::new());
    assert!(s.contains_key(&"a".to_string()));
    assert_eq!(s.get(&"a".to_string()).unwrap(), "");
}

#[test]
fn pairs_round_trip_through_persistence() {
    let mut s = SyncState::new();
    s.insert("a".to_string(), "da".to_string());
    s.insert("b".to_string(), String::new());
    let restored = SyncState::from_pairs(s.to_pairs().clone());
    assert_eq!(restored.get(&"a".to_string()).unwrap(), "da");
    assert_eq!(restored.get(&"b".to_string()).unwrap(), "");
    assert!(!restored.contains_key(&"c".to_string()));
}

#[test]
fn from_pairs_later_entry_wins() {
    let s = SyncState::from_pairs(vec![
        ("a".to_string(), "old".to_string()),
        ("a".to_string(), "new".to_string()),
    ]);
    assert_eq!(s.get(&"a".to_string()).unwrap(), "new");
}

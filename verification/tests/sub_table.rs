use mzmq::sub_table::{SubError, SubTable};

#[test]
fn sub_table_empty_table_matches_nothing() {
    let table: SubTable<8, 16> = SubTable::new();
    assert!(!table.matches(b"foo"));
}

#[test]
fn subscribe_empty_prefix_matches_all() {
    let mut table: SubTable<8, 16> = SubTable::new();
    table.subscribe(b"").unwrap();
    assert!(table.matches(b"foo"));
    assert!(table.matches(b""));
    assert!(table.matches(b"anything"));
}

#[test]
fn subscribe_prefix_matches_exact() {
    let mut table: SubTable<8, 16> = SubTable::new();
    table.subscribe(b"foo").unwrap();
    assert!(table.matches(b"foo"));
}

#[test]
fn subscribe_prefix_matches_longer_topic() {
    let mut table: SubTable<8, 16> = SubTable::new();
    table.subscribe(b"foo").unwrap();
    assert!(table.matches(b"foobar"));
}

#[test]
fn subscribe_prefix_does_not_match_shorter_topic() {
    let mut table: SubTable<8, 16> = SubTable::new();
    table.subscribe(b"foobar").unwrap();
    assert!(!table.matches(b"foo"));
}

#[test]
fn subscribe_prefix_does_not_match_different_prefix() {
    let mut table: SubTable<8, 16> = SubTable::new();
    table.subscribe(b"foo").unwrap();
    assert!(!table.matches(b"bar"));
}

#[test]
fn cancel_removes_subscription() {
    let mut table: SubTable<8, 16> = SubTable::new();
    table.subscribe(b"foo").unwrap();
    table.cancel(b"foo");
    assert!(!table.matches(b"foo"));
}

#[test]
fn cancel_nonexistent_is_noop() {
    let mut table: SubTable<8, 16> = SubTable::new();
    table.cancel(b"foo");
    assert_eq!(table.len(), 0);
}

#[test]
fn multiple_subscriptions_any_match() {
    let mut table: SubTable<8, 16> = SubTable::new();
    table.subscribe(b"foo").unwrap();
    table.subscribe(b"bar").unwrap();
    assert!(table.matches(b"fooX"));
    assert!(table.matches(b"barX"));
    assert!(!table.matches(b"baz"));
}

#[test]
fn sub_table_table_full_returns_err() {
    let mut table: SubTable<2, 8> = SubTable::new();
    assert!(table.subscribe(b"first").is_ok());
    assert!(table.subscribe(b"second").is_ok());
    assert_eq!(table.subscribe(b"third"), Err(SubError::TableFull));
}

#[test]
fn prefix_too_long_returns_err() {
    let mut table: SubTable<8, 4> = SubTable::new();
    assert_eq!(table.subscribe(b"toolong"), Err(SubError::PrefixTooLong));
}

#[test]
fn sub_table_len_and_is_empty() {
    let mut table: SubTable<8, 16> = SubTable::new();
    assert!(table.is_empty());
    assert_eq!(table.len(), 0);
    table.subscribe(b"foo").unwrap();
    assert_eq!(table.len(), 1);
    assert!(!table.is_empty());
    table.cancel(b"foo");
    assert_eq!(table.len(), 0);
    assert!(table.is_empty());
}

#[test]
fn duplicate_subscribe_does_not_add_twice() {
    let mut table: SubTable<8, 16> = SubTable::new();
    table.subscribe(b"foo").unwrap();
    table.subscribe(b"foo").unwrap();
    assert_eq!(table.len(), 1);
    assert!(table.matches(b"foo"));
}

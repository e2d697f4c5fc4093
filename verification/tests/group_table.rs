use mzmq::group_table::{GroupError, GroupTable};

#[test]
fn group_table_empty_table_matches_nothing() {
    let table: GroupTable<8, 16> = GroupTable::new();
    assert!(!table.matches(b"foo"));
}

#[test]
fn join_exact_match() {
    let mut table: GroupTable<8, 16> = GroupTable::new();
    table.join(b"foo").unwrap();
    assert!(table.matches(b"foo"));
}

#[test]
fn join_does_not_prefix_match() {
    let mut table: GroupTable<8, 16> = GroupTable::new();
    table.join(b"foo").unwrap();
    assert!(!table.matches(b"foobar"));
    assert!(!table.matches(b"fo"));
}

#[test]
fn leave_removes_group() {
    let mut table: GroupTable<8, 16> = GroupTable::new();
    table.join(b"foo").unwrap();
    table.leave(b"foo");
    assert!(!table.matches(b"foo"));
}

#[test]
fn leave_nonexistent_is_noop() {
    let mut table: GroupTable<8, 16> = GroupTable::new();
    table.leave(b"foo");
    assert_eq!(table.len(), 0);
}

#[test]
fn multiple_groups_exact_match() {
    let mut table: GroupTable<8, 16> = GroupTable::new();
    table.join(b"foo").unwrap();
    table.join(b"bar").unwrap();
    assert!(table.matches(b"foo"));
    assert!(table.matches(b"bar"));
    assert!(!table.matches(b"baz"));
}

#[test]
fn group_table_table_full_returns_err() {
    let mut table: GroupTable<2, 8> = GroupTable::new();
    assert!(table.join(b"first").is_ok());
    assert!(table.join(b"second").is_ok());
    assert_eq!(table.join(b"third"), Err(GroupError::TableFull));
}

#[test]
fn group_too_long_returns_err() {
    let mut table: GroupTable<8, 4> = GroupTable::new();
    assert_eq!(table.join(b"toolong"), Err(GroupError::GroupTooLong));
}

#[test]
fn group_table_len_and_is_empty() {
    let mut table: GroupTable<8, 16> = GroupTable::new();
    assert!(table.is_empty());
    assert_eq!(table.len(), 0);
    table.join(b"foo").unwrap();
    assert_eq!(table.len(), 1);
    assert!(!table.is_empty());
    table.leave(b"foo");
    assert_eq!(table.len(), 0);
    assert!(table.is_empty());
}

#[test]
fn duplicate_join_does_not_add_twice() {
    let mut table: GroupTable<8, 16> = GroupTable::new();
    table.join(b"foo").unwrap();
    table.join(b"foo").unwrap();
    assert_eq!(table.len(), 1);
    assert!(table.matches(b"foo"));
}

#[test]
fn join_at_max_length_succeeds() {
    let mut table: GroupTable<8, 4> = GroupTable::new();
    table.join(b"abcd").unwrap();
    assert!(table.matches(b"abcd"));
    assert_eq!(table.len(), 1);
}

#[test]
fn leave_at_max_length_removes_group() {
    let mut table: GroupTable<8, 4> = GroupTable::new();
    table.join(b"abcd").unwrap();
    table.leave(b"abcd");
    assert!(!table.matches(b"abcd"));
    assert!(table.is_empty());
}

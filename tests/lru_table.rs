use hath::lru::LruTable;

#[test]
fn test() {
    let mut table = LruTable::new();
    table.push_front(1);
    table.push_front(2);
    table.push_front(3);
    table.push_front(4);
    table.push_front(5);
    table.push_front(6); // 6, 5, 4, 3, 2, 1

    table.get(&5); // 5, 6, 4, 3, 2, 1
    table.get(&2); // 2, 5, 6, 4, 3, 1
    table.get(&1); // 1, 2, 5, 6, 4, 3

    assert_eq!(table.pop_back(), Some(3));
    assert_eq!(table.pop_back(), Some(4));
    assert_eq!(table.pop_back(), Some(6));
    assert_eq!(table.pop_back(), Some(5));
    assert_eq!(table.pop_back(), Some(2));
    assert_eq!(table.pop_back(), Some(1));
    assert_eq!(table.pop_back(), None);
}

#[test]
fn lru_replace_in_place_returns_previous_and_moves_to_front() {
    let mut table = LruTable::new();
    assert_eq!(table.push_front(1), None);
    assert_eq!(table.push_front(2), None);
    assert_eq!(table.push_front(3), None);
    assert_eq!(table.push_front(1), Some(1));
    assert_eq!(table.len(), 3);
    assert_eq!(table.pop_back(), Some(2));
    assert_eq!(table.pop_back(), Some(3));
    assert_eq!(table.pop_back(), Some(1));
}

#[test]
fn lru_get_missing_key_changes_nothing() {
    let mut table = LruTable::new();
    table.push_front(7);
    table.push_front(8);
    assert_eq!(table.get(&9), None);
    assert_eq!(table.get(&7), Some(&7));
    assert_eq!(table.pop_back(), Some(8));
    assert_eq!(table.pop_back(), Some(7));
}

#[test]
fn lru_empty_table() {
    let mut table: LruTable<i32> = LruTable::new();
    assert_eq!(table.len(), 0);
    assert_eq!(table.pop_back(), None);
}

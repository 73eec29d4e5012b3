use port_scanner::holy_table::{holy_capacity, Holy, HolyTable};

#[test]
fn new_table_is_empty_with_room() {
    let table = HolyTable::new(10);
    assert_eq!(table.len(), 0);
    assert!(table.capacity() >= 10);
    assert!(table.is_holy());
}

#[test]
fn holiness_follows_capacity() {
    assert!(holy_capacity(1));
    assert!(!holy_capacity(0));
}

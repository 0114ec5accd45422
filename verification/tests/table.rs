use scale_to_zero::ipmap::IpMap;
use scale_to_zero::table::{
    ServiceAvailability, TableError, FLAG_AVAILABLE, FLAG_SCALED_DOWN, MAX_ENTRIES,
};

#[test]
fn empty_table_holds_nothing() {
    let table = ServiceAvailability::new();
    assert_eq!(table.len(), 0);
    assert_eq!(table.get(1), None);
    assert_eq!(table.keys(), Vec::<u32>::new());
}

#[test]
fn flags_are_zero_and_one() {
    assert_eq!(FLAG_SCALED_DOWN, 0);
    assert_eq!(FLAG_AVAILABLE, 1);
}

#[test]
fn capacity_is_at_least_1024() {
    assert!(MAX_ENTRIES >= 1024);
}

#[test]
fn insert_get_remove() {
    let mut table = ServiceAvailability::new();
    assert_eq!(table.insert(10, 1), Ok(()));
    assert_eq!(table.insert(20, 0), Ok(()));
    assert_eq!(table.get(10), Some(1));
    assert_eq!(table.get(20), Some(0));
    assert_eq!(table.len(), 2);
    assert_eq!(table.insert(10, 0), Ok(()));
    assert_eq!(table.get(10), Some(0));
    assert_eq!(table.len(), 2);
    assert_eq!(table.keys(), vec![10, 20]);
    assert!(table.remove(10));
    assert!(!table.remove(10));
    assert_eq!(table.get(10), None);
    assert_eq!(table.keys(), vec![20]);
    assert_eq!(table.len(), 1);
}

#[test]
fn full_table_refuses_new_addresses_only() {
    let mut table = ServiceAvailability::new();
    for ip in 0..MAX_ENTRIES as u32 {
        assert_eq!(table.insert(ip, 1), Ok(()));
    }
    assert_eq!(table.len(), MAX_ENTRIES);
    assert_eq!(table.insert(5_000_000, 1), Err(TableError::CapacityExceeded));
    assert_eq!(table.get(5_000_000), None);
    assert_eq!(table.len(), MAX_ENTRIES);
    assert_eq!(table.insert(7, 0), Ok(()));
    assert_eq!(table.get(7), Some(0));
    assert!(table.remove(3));
    assert_eq!(table.insert(5_000_000, 1), Ok(()));
    assert_eq!(table.get(5_000_000), Some(1));
}

#[test]
fn ip_map_keeps_insertion_order() {
    let mut m: IpMap<&str> = IpMap::new();
    m.insert(3, "c");
    m.insert(1, "a");
    m.insert(2, "b");
    m.insert(1, "A");
    assert_eq!(m.len(), 3);
    assert_eq!(m.key_at(0), 3);
    assert_eq!(m.key_at(1), 1);
    assert_eq!(m.key_at(2), 2);
    assert_eq!(*m.value_at(1), "A");
    assert_eq!(m.position(2), Some(2));
    assert_eq!(m.position(9), None);
    assert_eq!(m.get(1), Some(&"A"));
    assert!(m.contains_key(3));
    assert!(m.remove(3));
    assert!(!m.contains_key(3));
    assert_eq!(m.key_at(0), 1);
    assert_eq!(m.key_at(1), 2);
    assert_eq!(m.get(3), None);
    assert!(!m.remove(3));
}

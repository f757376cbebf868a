use mobilecoind::error::Error;
use mobilecoind::subaddress_index::SubaddressIndex;
use mobilecoind::types::{Key32, MonitorId};

fn key(n: u64) -> Key32 {
    Key32 { w0: 9, w1: 0, w2: 0, w3: n }
}

fn monitor(n: u64) -> MonitorId {
    MonitorId { account: key(100 + n), first_subaddress: 0, num_subaddresses: 4 }
}

#[test]
fn lookup_finds_what_was_inserted() {
    let mut index = SubaddressIndex::new();
    index.insert(key(1), monitor(1), 3).unwrap();
    index.insert(key(2), monitor(2), 0).unwrap();
    assert_eq!(index.lookup(key(1)), Some((monitor(1), 3)));
    assert_eq!(index.lookup(key(2)), Some((monitor(2), 0)));
    assert_eq!(index.len(), 2);
}

#[test]
fn lookup_of_a_foreign_key_is_none_and_no_error() {
    let mut index = SubaddressIndex::new();
    index.insert(key(1), monitor(1), 3).unwrap();
    assert_eq!(index.lookup(key(5)), None);
}

#[test]
fn get_index_data_of_a_missing_key_is_an_error() {
    let mut index = SubaddressIndex::new();
    index.insert(key(1), monitor(1), 3).unwrap();
    assert_eq!(index.get_index_data(key(1)).unwrap(), (monitor(1), 3));
    assert!(matches!(index.get_index_data(key(5)), Err(Error::SubaddressSPKNotFound)));
}

#[test]
fn duplicate_spend_key_is_refused_and_changes_nothing() {
    let mut index = SubaddressIndex::new();
    index.insert(key(1), monitor(1), 3).unwrap();
    assert!(matches!(index.insert(key(1), monitor(2), 0), Err(Error::SubaddressSPKIdExists)));
    assert_eq!(index.len(), 1);
    assert_eq!(index.lookup(key(1)), Some((monitor(1), 3)));
}

#[test]
fn insert_all_numbers_the_keys_from_the_first_index() {
    let mut index = SubaddressIndex::new();
    index.insert_all(&vec![key(1), key(2), key(3)], monitor(1), 10).unwrap();
    assert_eq!(index.lookup(key(1)), Some((monitor(1), 10)));
    assert_eq!(index.lookup(key(2)), Some((monitor(1), 11)));
    assert_eq!(index.lookup(key(3)), Some((monitor(1), 12)));
}

#[test]
fn insert_all_enters_nothing_when_a_key_is_known() {
    let mut index = SubaddressIndex::new();
    index.insert(key(3), monitor(9), 0).unwrap();
    let r = index.insert_all(&vec![key(1), key(2), key(3)], monitor(1), 10);
    assert!(matches!(r, Err(Error::SubaddressSPKIdExists)));
    assert_eq!(index.len(), 1);
    assert_eq!(index.lookup(key(1)), None);
    assert_eq!(index.lookup(key(2)), None);
    assert_eq!(index.lookup(key(3)), Some((monitor(9), 0)));
}

#[test]
fn insert_all_enters_nothing_when_a_key_is_given_twice() {
    let mut index = SubaddressIndex::new();
    let r = index.insert_all(&vec![key(1), key(2), key(1)], monitor(1), 0);
    assert!(matches!(r, Err(Error::SubaddressSPKIdExists)));
    assert_eq!(index.len(), 0);
}

#[test]
fn remove_all_for_monitor_leaves_the_other_monitors() {
    let mut index = SubaddressIndex::new();
    index.insert(key(1), monitor(1), 0).unwrap();
    index.insert(key(2), monitor(2), 0).unwrap();
    index.insert(key(3), monitor(1), 1).unwrap();
    index.remove_all_for_monitor(monitor(1));
    assert_eq!(index.len(), 1);
    assert_eq!(index.lookup(key(1)), None);
    assert_eq!(index.lookup(key(3)), None);
    assert_eq!(index.lookup(key(2)), Some((monitor(2), 0)));
}

#[test]
fn insert_all_beyond_the_largest_index_is_an_invalid_argument() {
    let mut index = SubaddressIndex::new();
    let r = index.insert_all(&vec![key(1), key(2)], monitor(1), u64::MAX);
    assert!(matches!(r, Err(Error::InvalidArgument(_, _))));
    assert_eq!(index.len(), 0);
    index.insert_all(&vec![key(1), key(2)], monitor(1), u64::MAX - 1).unwrap();
    assert_eq!(index.lookup(key(2)), Some((monitor(1), u64::MAX)));
    assert!(index.insert_all(&Vec::new(), monitor(1), u64::MAX).is_ok());
}

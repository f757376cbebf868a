use mobilecoind::database::Database;
use mobilecoind::error::Error;
use mobilecoind::monitor_store::MonitorParams;
use mobilecoind::types::{Key32, MonitorId};
use mobilecoind::utxo_store::{sum_values, UnspentTxOut};

fn key(n: u64) -> Key32 {
    Key32 { w0: 0, w1: 7, w2: 0, w3: n }
}

fn params(n: u64, num: u64) -> MonitorParams {
    MonitorParams { account: key(n), first_subaddress: 2, num_subaddresses: num, first_block: 0 }
}

fn utxo(id: u64, owner: MonitorId, value: u64) -> UnspentTxOut {
    UnspentTxOut {
        output_id: id,
        monitor_id: owner,
        subaddress_index: 2,
        value,
        key_image: key(5000 + id),
        block_index: 0,
    }
}

#[test]
fn add_monitor_enters_the_monitor_and_its_subaddresses() {
    let mut db = Database::new();
    let id = db.add_monitor(params(1, 2), &vec![key(11), key(12)]).unwrap();
    assert!(db.monitors.contains(id));
    assert_eq!(db.subaddresses.lookup(key(11)), Some((id, 2)));
    assert_eq!(db.subaddresses.lookup(key(12)), Some((id, 3)));
    assert_eq!(db.utxos.len(), 0);
}

#[test]
fn add_monitor_twice_is_refused_as_existing() {
    let mut db = Database::new();
    db.add_monitor(params(1, 2), &vec![key(11), key(12)]).unwrap();
    let again = db.add_monitor(params(1, 2), &vec![key(11), key(12)]);
    assert!(matches!(again, Err(Error::MonitorIdExists)));
    assert_eq!(db.monitors.len(), 1);
    assert_eq!(db.subaddresses.len(), 2);
}

#[test]
fn add_monitor_with_a_wrong_number_of_keys_is_an_invalid_argument() {
    let mut db = Database::new();
    let r = db.add_monitor(params(1, 2), &vec![key(11)]);
    assert!(matches!(r, Err(Error::InvalidArgument(_, _))));
    assert_eq!(db.monitors.len(), 0);
    assert_eq!(db.subaddresses.len(), 0);
}

#[test]
fn add_monitor_with_a_known_spend_key_enters_nothing() {
    let mut db = Database::new();
    let first = db.add_monitor(params(1, 2), &vec![key(11), key(12)]).unwrap();
    let r = db.add_monitor(params(2, 2), &vec![key(21), key(12)]);
    assert!(matches!(r, Err(Error::SubaddressSPKIdExists)));
    assert_eq!(db.monitors.len(), 1);
    assert_eq!(db.subaddresses.len(), 2);
    assert_eq!(db.subaddresses.lookup(key(21)), None);
    assert_eq!(db.subaddresses.lookup(key(12)), Some((first, 3)));
}

#[test]
fn remove_monitor_takes_its_subaddresses_and_outputs_along() {
    let mut db = Database::new();
    let a = db.add_monitor(params(1, 1), &vec![key(11)]).unwrap();
    let b = db.add_monitor(params(2, 1), &vec![key(21)]).unwrap();
    db.utxos.insert(utxo(1, a, 10)).unwrap();
    db.utxos.insert(utxo(2, b, 20)).unwrap();
    db.utxos.insert(utxo(3, a, 30)).unwrap();
    assert!(db.remove_monitor(a).is_ok());
    assert!(!db.monitors.contains(a));
    assert!(db.monitors.contains(b));
    assert_eq!(db.subaddresses.lookup(key(11)), None);
    assert_eq!(db.subaddresses.lookup(key(21)), Some((b, 2)));
    assert_eq!(db.utxos.len(), 1);
    assert_eq!(db.utxos.get(2).unwrap(), utxo(2, b, 20));
    assert!(matches!(db.remove_monitor(a), Err(Error::MonitorIdNotFound)));
}

#[test]
fn balance_adds_up_the_outputs_of_the_monitor() {
    let mut db = Database::new();
    let a = db.add_monitor(params(1, 1), &vec![key(11)]).unwrap();
    let b = db.add_monitor(params(2, 1), &vec![key(21)]).unwrap();
    db.utxos.insert(utxo(1, a, 10)).unwrap();
    db.utxos.insert(utxo(2, b, 20)).unwrap();
    db.utxos.insert(utxo(3, a, 30)).unwrap();
    assert_eq!(db.balance(a).unwrap(), 40);
    assert_eq!(db.balance(b).unwrap(), 20);
    assert!(matches!(db.balance(params(3, 1).id()), Err(Error::MonitorIdNotFound)));
}

#[test]
fn balance_can_exceed_u64() {
    let mut db = Database::new();
    let a = db.add_monitor(params(1, 1), &vec![key(11)]).unwrap();
    db.utxos.insert(utxo(1, a, u64::MAX)).unwrap();
    db.utxos.insert(utxo(2, a, u64::MAX)).unwrap();
    assert_eq!(db.balance(a).unwrap(), 2 * (u64::MAX as u128));
}

#[test]
fn sum_values_of_nothing_is_zero() {
    assert_eq!(sum_values(&Vec::new()), 0);
}

fn monitor(n: u64, first_block: u64, next_block: u64) -> mobilecoind::monitor_store::MonitorData {
    mobilecoind::monitor_store::MonitorData {
        account: key(n),
        first_subaddress: 2,
        num_subaddresses: 1,
        first_block,
        next_block,
    }
}

fn entry(k: u64, owner: MonitorId) -> mobilecoind::subaddress_index::SubaddressEntry {
    mobilecoind::subaddress_index::SubaddressEntry { spend_public_key: key(k), monitor_id: owner, index: 2 }
}

#[test]
fn restore_gives_the_database_of_the_records() {
    let a = monitor(1, 0, 7);
    let b = monitor(2, 3, 3);
    let db = Database::restore(
        &vec![a, b],
        &vec![entry(11, a.id()), entry(21, b.id())],
        &vec![utxo(1, a.id(), 10), utxo(2, b.id(), 20)],
    )
    .unwrap();
    assert_eq!(db.monitors.list(), vec![a, b]);
    assert_eq!(db.subaddresses.list(), vec![entry(11, a.id()), entry(21, b.id())]);
    assert_eq!(db.utxos.list(), vec![utxo(1, a.id(), 10), utxo(2, b.id(), 20)]);
    assert_eq!(db.monitors.get(a.id()).unwrap().next_block, 7);
    assert_eq!(db.balance(b.id()).unwrap(), 20);
}

#[test]
fn restore_of_nothing_is_the_empty_database() {
    let db = Database::restore(&Vec::new(), &Vec::new(), &Vec::new()).unwrap();
    assert_eq!(db.monitors.len(), 0);
    assert_eq!(db.subaddresses.len(), 0);
    assert_eq!(db.utxos.len(), 0);
}

#[test]
fn restore_refuses_records_that_no_database_holds() {
    let a = monitor(1, 0, 7);
    let b = monitor(2, 3, 3);
    let backwards = monitor(3, 5, 4);
    assert!(a.is_valid());
    assert!(!backwards.is_valid());
    assert!(matches!(
        Database::restore(&vec![a, backwards, a], &Vec::new(), &Vec::new()),
        Err(Error::InvalidArgument(_, _))
    ));
    assert!(matches!(
        Database::restore(&vec![a, b, a], &Vec::new(), &Vec::new()),
        Err(Error::MonitorIdExists)
    ));
    assert!(matches!(
        Database::restore(&vec![a], &vec![entry(11, a.id()), entry(11, a.id())], &Vec::new()),
        Err(Error::SubaddressSPKIdExists)
    ));
    assert!(matches!(
        Database::restore(&vec![a], &Vec::new(), &vec![utxo(1, a.id(), 10), utxo(1, a.id(), 10)]),
        Err(Error::DuplicateUnspentTxOut)
    ));
    assert!(matches!(
        Database::restore(&vec![a], &vec![entry(11, b.id())], &Vec::new()),
        Err(Error::MonitorIdNotFound)
    ));
    assert!(matches!(
        Database::restore(&vec![a], &Vec::new(), &vec![utxo(1, b.id(), 10)]),
        Err(Error::MonitorIdNotFound)
    ));
}

#[test]
fn restored_monitor_keeps_its_cursor_and_a_second_one_is_refused() {
    let mut store = mobilecoind::monitor_store::MonitorStore::new();
    let a = monitor(1, 0, 7);
    assert!(store.restore(a).is_ok());
    assert_eq!(store.get(a.id()).unwrap(), a);
    assert!(matches!(store.restore(monitor(1, 0, 9)), Err(Error::MonitorIdExists)));
    assert!(matches!(store.restore(monitor(2, 5, 4)), Err(Error::InvalidArgument(_, _))));
    assert_eq!(store.len(), 1);
}

#[test]
fn database_made_from_its_own_records_is_the_same() {
    let mut db = Database::new();
    let a = db.add_monitor(params(1, 2), &vec![key(11), key(12)]).unwrap();
    let b = db.add_monitor(params(2, 1), &vec![key(21)]).unwrap();
    db.utxos.insert(utxo(1, a, 10)).unwrap();
    db.utxos.insert(utxo(2, b, 20)).unwrap();
    db.monitors.advance_cursor(a, 9).unwrap();
    let records = db.records();
    assert_eq!(records.len(), 7);
    let stored: Vec<(Vec<u8>, Vec<u8>)> = records.iter().rev().map(|r| r.encode()).collect();
    let read: Vec<mobilecoind::snapshot::Record> = stored
        .iter()
        .map(|(key, value)| mobilecoind::snapshot::Record::decode(key, value).unwrap())
        .collect();
    let again = Database::from_records(&read).unwrap();
    let mut monitors = db.monitors.list();
    monitors.reverse();
    let mut utxos = db.utxos.list();
    utxos.reverse();
    assert_eq!(again.monitors.list(), monitors);
    assert_eq!(again.utxos.list(), utxos);
    assert_eq!(again.subaddresses.list().len(), 3);
    assert_eq!(again.monitors.get(a).unwrap().next_block, 9);
    assert_eq!(again.subaddresses.lookup(key(12)), Some((a, 3)));
    assert_eq!(again.balance(a).unwrap(), 10);
    let same = Database::from_records(&records).unwrap();
    assert_eq!(same.monitors.list(), db.monitors.list());
    assert_eq!(same.subaddresses.list(), db.subaddresses.list());
    assert_eq!(same.utxos.list(), db.utxos.list());
}

#[test]
fn record_of_no_store_is_a_key_deserialization_error() {
    use_record_decode(&vec![9, 1, 2], &vec![], true);
    use_record_decode(&vec![], &vec![], true);
    use_record_decode(&vec![3, 0, 0, 0, 0, 0, 0, 0, 1], &vec![0; 103], false);
}

fn use_record_decode(key: &Vec<u8>, value: &Vec<u8>, key_fault: bool) {
    let r = mobilecoind::snapshot::Record::decode(key, value);
    if key_fault {
        assert!(matches!(r, Err(Error::KeyDeserializationError)));
    } else {
        assert!(matches!(r, Err(Error::Deserialization(_))));
    }
}

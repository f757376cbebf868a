use mobilecoind::error::Error;
use mobilecoind::types::{Key32, MonitorId};
use mobilecoind::utxo_store::{UnspentTxOut, UtxoStore};

fn key(n: u64) -> Key32 {
    Key32 { w0: 0, w1: 0, w2: 0, w3: n }
}

fn monitor(n: u64) -> MonitorId {
    MonitorId { account: key(n), first_subaddress: 0, num_subaddresses: 10 }
}

fn utxo(id: u64, owner: u64, subaddress: u64, value: u64) -> UnspentTxOut {
    UnspentTxOut {
        output_id: id,
        monitor_id: monitor(owner),
        subaddress_index: subaddress,
        value,
        key_image: key(1000 + id),
        block_index: 0,
    }
}

#[test]
fn insert_then_get_returns_the_record() {
    let mut store = UtxoStore::new();
    assert!(store.insert(utxo(7, 1, 0, 50)).is_ok());
    assert_eq!(store.get(7).unwrap(), utxo(7, 1, 0, 50));
    assert_eq!(store.len(), 1);
}

#[test]
fn second_insert_of_an_output_id_is_refused_and_changes_nothing() {
    let mut store = UtxoStore::new();
    store.insert(utxo(7, 1, 0, 50)).unwrap();
    let second = store.insert(utxo(7, 2, 3, 99));
    assert!(matches!(second, Err(Error::DuplicateUnspentTxOut)));
    assert_eq!(store.len(), 1);
    assert_eq!(store.get(7).unwrap(), utxo(7, 1, 0, 50));
}

#[test]
fn get_of_an_unknown_output_is_not_found() {
    let mut store = UtxoStore::new();
    store.insert(utxo(7, 1, 0, 50)).unwrap();
    assert!(matches!(store.get(8), Err(Error::UtxoIdNotFound)));
    assert!(store.contains(7));
    assert!(!store.contains(8));
}

#[test]
fn remove_by_key_image_removes_the_spent_output_only() {
    let mut store = UtxoStore::new();
    store.insert(utxo(1, 1, 0, 10)).unwrap();
    store.insert(utxo(2, 1, 0, 20)).unwrap();
    store.insert(utxo(3, 2, 0, 30)).unwrap();
    let removed = store.remove_by_key_image(key(1002));
    assert_eq!(removed, vec![utxo(2, 1, 0, 20)]);
    assert_eq!(store.len(), 2);
    assert!(store.contains(1));
    assert!(!store.contains(2));
    assert!(store.contains(3));
}

#[test]
fn remove_by_an_unknown_key_image_changes_nothing() {
    let mut store = UtxoStore::new();
    store.insert(utxo(1, 1, 0, 10)).unwrap();
    let removed = store.remove_by_key_image(key(5));
    assert!(removed.is_empty());
    assert_eq!(store.len(), 1);
    assert_eq!(store.get(1).unwrap(), utxo(1, 1, 0, 10));
}

#[test]
fn list_for_monitor_keeps_the_order_of_insertion() {
    let mut store = UtxoStore::new();
    store.insert(utxo(5, 1, 0, 10)).unwrap();
    store.insert(utxo(2, 2, 0, 20)).unwrap();
    store.insert(utxo(9, 1, 3, 30)).unwrap();
    assert_eq!(store.list_for_monitor(monitor(1)), vec![utxo(5, 1, 0, 10), utxo(9, 1, 3, 30)]);
    assert_eq!(store.list_for_monitor(monitor(2)), vec![utxo(2, 2, 0, 20)]);
    assert!(store.list_for_monitor(monitor(3)).is_empty());
}

#[test]
fn list_for_subaddress_without_entries_is_an_error() {
    let mut store = UtxoStore::new();
    store.insert(utxo(5, 1, 0, 10)).unwrap();
    store.insert(utxo(9, 1, 3, 30)).unwrap();
    store.insert(utxo(4, 2, 3, 40)).unwrap();
    assert_eq!(store.list_for_subaddress(monitor(1), 3).unwrap(), vec![utxo(9, 1, 3, 30)]);
    assert!(matches!(store.list_for_subaddress(monitor(1), 1), Err(Error::SubaddressIdNotFound)));
    assert!(matches!(store.list_for_subaddress(monitor(3), 3), Err(Error::SubaddressIdNotFound)));
}

#[test]
fn remove_all_for_monitor_removes_its_outputs_only() {
    let mut store = UtxoStore::new();
    store.insert(utxo(5, 1, 0, 10)).unwrap();
    store.insert(utxo(2, 2, 0, 20)).unwrap();
    store.insert(utxo(9, 1, 3, 30)).unwrap();
    store.remove_all_for_monitor(monitor(1));
    assert_eq!(store.len(), 1);
    assert_eq!(store.get(2).unwrap(), utxo(2, 2, 0, 20));
}

#[test]
fn an_output_can_be_inserted_again_after_it_was_removed() {
    let mut store = UtxoStore::new();
    store.insert(utxo(1, 1, 0, 10)).unwrap();
    store.remove_by_key_image(key(1001));
    assert!(store.insert(utxo(1, 1, 0, 10)).is_ok());
    assert_eq!(store.len(), 1);
}

#[test]
fn remove_takes_out_the_record_with_the_output_id() {
    let mut store = UtxoStore::new();
    store.insert(utxo(5, 1, 0, 10)).unwrap();
    store.insert(utxo(2, 2, 0, 20)).unwrap();
    store.insert(utxo(9, 1, 3, 30)).unwrap();
    assert_eq!(store.remove(2).unwrap(), utxo(2, 2, 0, 20));
    assert_eq!(store.list(), vec![utxo(5, 1, 0, 10), utxo(9, 1, 3, 30)]);
    assert!(matches!(store.remove(2), Err(Error::UtxoIdNotFound)));
    assert_eq!(store.len(), 2);
}

use mobilecoind::error::Error;
use mobilecoind::monitor_store::{MonitorData, MonitorParams, MonitorStore};
use mobilecoind::types::{Key32, MonitorId};

fn account(n: u64) -> Key32 {
    Key32 { w0: 1, w1: 2, w2: 3, w3: n }
}

fn params(n: u64, first_block: u64) -> MonitorParams {
    MonitorParams { account: account(n), first_subaddress: 5, num_subaddresses: 3, first_block }
}

#[test]
fn register_returns_the_derived_id_and_starts_at_first_block() {
    let mut store = MonitorStore::new();
    let id = store.register(params(1, 10)).unwrap();
    assert_eq!(id, MonitorId { account: account(1), first_subaddress: 5, num_subaddresses: 3 });
    assert_eq!(id, params(1, 10).id());
    let m = store.get(id).unwrap();
    assert_eq!(
        m,
        MonitorData {
            account: account(1),
            first_subaddress: 5,
            num_subaddresses: 3,
            first_block: 10,
            next_block: 10,
        }
    );
    assert_eq!(m.id(), id);
}

#[test]
fn registering_twice_is_refused_and_removing_twice_is_refused() {
    let mut store = MonitorStore::new();
    let id = store.register(params(1, 0)).unwrap();
    assert!(matches!(store.register(params(1, 0)), Err(Error::MonitorIdExists)));
    assert_eq!(store.len(), 1);
    assert!(store.remove(id).is_ok());
    assert!(matches!(store.remove(id), Err(Error::MonitorIdNotFound)));
    assert_eq!(store.len(), 0);
}

#[test]
fn same_account_and_range_with_another_first_block_is_the_same_monitor() {
    let mut store = MonitorStore::new();
    store.register(params(1, 0)).unwrap();
    assert!(matches!(store.register(params(1, 77)), Err(Error::MonitorIdExists)));
}

#[test]
fn empty_subaddress_range_is_an_invalid_argument() {
    let mut store = MonitorStore::new();
    let p = MonitorParams { account: account(1), first_subaddress: 0, num_subaddresses: 0, first_block: 0 };
    assert!(!p.is_valid());
    assert!(matches!(store.register(p), Err(Error::InvalidArgument(_, _))));
    assert_eq!(store.len(), 0);
}

#[test]
fn subaddress_range_beyond_u64_is_an_invalid_argument() {
    let mut store = MonitorStore::new();
    let p = MonitorParams {
        account: account(1),
        first_subaddress: u64::MAX,
        num_subaddresses: 2,
        first_block: 0,
    };
    assert!(matches!(store.register(p), Err(Error::InvalidArgument(_, _))));
    let last = MonitorParams {
        account: account(1),
        first_subaddress: u64::MAX,
        num_subaddresses: 1,
        first_block: 0,
    };
    assert!(last.is_valid());
    assert!(store.register(last).is_ok());
}

#[test]
fn get_and_remove_of_an_unknown_monitor_are_not_found() {
    let mut store = MonitorStore::new();
    store.register(params(1, 0)).unwrap();
    let other = params(2, 0).id();
    assert!(matches!(store.get(other), Err(Error::MonitorIdNotFound)));
    assert!(matches!(store.remove(other), Err(Error::MonitorIdNotFound)));
    assert!(!store.contains(other));
    assert!(store.contains(params(1, 0).id()));
}

#[test]
fn list_gives_monitors_in_order_of_registration() {
    let mut store = MonitorStore::new();
    let a = store.register(params(1, 0)).unwrap();
    let b = store.register(params(2, 4)).unwrap();
    let c = store.register(params(3, 8)).unwrap();
    let ids: Vec<MonitorId> = store.list().iter().map(|m| m.id()).collect();
    assert_eq!(ids, vec![a, b, c]);
    store.remove(b).unwrap();
    let ids: Vec<MonitorId> = store.list().iter().map(|m| m.id()).collect();
    assert_eq!(ids, vec![a, c]);
}

#[test]
fn cursor_moves_forward_and_stays_for_the_same_value() {
    let mut store = MonitorStore::new();
    let id = store.register(params(1, 10)).unwrap();
    assert!(store.advance_cursor(id, 12).is_ok());
    assert_eq!(store.get(id).unwrap().next_block, 12);
    assert!(store.advance_cursor(id, 12).is_ok());
    assert_eq!(store.get(id).unwrap().next_block, 12);
    assert!(store.advance_cursor(id, 13).is_ok());
    assert_eq!(store.get(id).unwrap().next_block, 13);
    assert_eq!(store.get(id).unwrap().first_block, 10);
}

#[test]
fn cursor_does_not_move_back() {
    let mut store = MonitorStore::new();
    let id = store.register(params(1, 10)).unwrap();
    store.advance_cursor(id, 20).unwrap();
    assert!(matches!(store.advance_cursor(id, 19), Err(Error::BlockIndexTooSmall(19, 20))));
    assert!(matches!(store.advance_cursor(id, 10), Err(Error::BlockIndexTooSmall(10, 20))));
    assert!(matches!(store.advance_cursor(id, 9), Err(Error::BlockIndexTooSmall(9, 10))));
    assert_eq!(store.get(id).unwrap().next_block, 20);
}

#[test]
fn cursor_of_an_unknown_monitor_is_not_found() {
    let mut store = MonitorStore::new();
    assert!(matches!(
        store.advance_cursor(params(1, 0).id(), 3),
        Err(Error::MonitorIdNotFound)
    ));
}

#[test]
fn moving_one_cursor_leaves_the_others() {
    let mut store = MonitorStore::new();
    let a = store.register(params(1, 0)).unwrap();
    let b = store.register(params(2, 5)).unwrap();
    store.advance_cursor(a, 3).unwrap();
    assert_eq!(store.get(a).unwrap().next_block, 3);
    assert_eq!(store.get(b).unwrap().next_block, 5);
}

#[test]
fn monitor_watches_exactly_its_range() {
    let mut store = MonitorStore::new();
    let id = store.register(params(1, 0)).unwrap();
    let m = store.get(id).unwrap();
    assert!(!m.watches(4));
    assert!(m.watches(5));
    assert!(m.watches(7));
    assert!(!m.watches(8));
}

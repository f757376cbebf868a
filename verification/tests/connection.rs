use mobilecoind::connection::{exhausted, on_failure, PeerSet, RetryPolicy, RetryState, RetryStep};
use mobilecoind::database::Database;
use mobilecoind::error::{ConnectionError, Error, ErrorKind};
use mobilecoind::monitor_store::MonitorParams;
use mobilecoind::sync::{process_block, Block, ScannedOutput};
use mobilecoind::types::Key32;
use std::time::Duration;

fn cause(text: &str) -> ConnectionError {
    ConnectionError { reason: text.to_string() }
}

fn names(v: &[&str]) -> Vec<String> {
    v.iter().map(|s| s.to_string()).collect()
}

#[test]
fn peers_take_turns() {
    let mut peers = PeerSet::new(names(&["a:1", "b:2", "c:3"]));
    assert!(!peers.is_offline());
    assert_eq!(peers.pick().unwrap(), 0);
    assert_eq!(peers.pick().unwrap(), 1);
    assert_eq!(peers.pick().unwrap(), 2);
    assert_eq!(peers.pick().unwrap(), 0);
}

#[test]
fn turn_beyond_the_number_of_peers_wraps_around() {
    let mut peers = PeerSet { peers: names(&["a:1", "b:2", "c:3"]), next: 7 };
    assert_eq!(peers.pick().unwrap(), 1);
    assert_eq!(peers.next, 2);
}

#[test]
fn offline_no_peer_is_picked_and_cached_queries_are_served() {
    let mut peers = PeerSet::new(Vec::new());
    assert!(peers.is_offline());
    let picked = peers.pick();
    assert!(matches!(picked, Err(Error::NoPeersConfigured)));
    assert_eq!(picked.unwrap_err().kind(), ErrorKind::Offline);
    assert_eq!(peers.next, 0);
    assert!(matches!(peers.find(&"a:1".to_string()), Err(Error::NoPeersConfigured)));

    let key = |n: u64| Key32 { w0: 6, w1: 0, w2: 0, w3: n };
    let mut db = Database::new();
    let id = db
        .add_monitor(
            MonitorParams { account: key(1), first_subaddress: 0, num_subaddresses: 1, first_block: 0 },
            &vec![key(2)],
        )
        .unwrap();
    let outputs = vec![ScannedOutput { output_id: 1, spend_public_key: key(2), value: 25, key_image: key(3) }];
    process_block(&mut db, id, &Block { index: 0, outputs, key_images: Some(vec![]) }).unwrap();
    assert_eq!(db.balance(id).unwrap(), 25);
    assert_eq!(db.utxos.list_for_monitor(id).len(), 1);
    assert_eq!(db.utxos.get(1).unwrap().value, 25);
}

#[test]
fn find_gives_the_place_of_a_peer_or_node_not_found() {
    let peers = PeerSet::new(names(&["a:1", "b:2", "a:1"]));
    assert_eq!(peers.find(&"b:2".to_string()).unwrap(), 1);
    assert_eq!(peers.find(&"a:1".to_string()).unwrap(), 0);
    let missing = peers.find(&"z:9".to_string());
    assert!(matches!(missing, Err(Error::NodeNotFound)));
    assert_eq!(missing.unwrap_err().kind(), ErrorKind::Network);
}

#[test]
fn failed_call_waits_the_delays_of_the_policy_in_turn() {
    let policy = RetryPolicy { delays_ms: vec![10, 10, 20] };
    let state = RetryState::first();
    assert_eq!(state, RetryState { failed: 0, waited_ms: 0 });
    let state = match on_failure(&policy, state, cause("down"), false) {
        RetryStep::Wait { delay_ms, next } => {
            assert_eq!(delay_ms, 10);
            assert_eq!(next, RetryState { failed: 1, waited_ms: 10 });
            next
        }
        other => panic!("unexpected step {:?}", other),
    };
    let state = match on_failure(&policy, state, cause("down"), false) {
        RetryStep::Wait { delay_ms, next } => {
            assert_eq!(delay_ms, 10);
            next
        }
        other => panic!("unexpected step {:?}", other),
    };
    let state = match on_failure(&policy, state, cause("down"), false) {
        RetryStep::Wait { delay_ms, next } => {
            assert_eq!(delay_ms, 20);
            assert_eq!(next, RetryState { failed: 3, waited_ms: 40 });
            next
        }
        other => panic!("unexpected step {:?}", other),
    };
    match on_failure(&policy, state, cause("still down"), false) {
        RetryStep::GiveUp { error: Error::Connection(retry::Error::Operation { error, total_delay, tries }) } => {
            assert_eq!(error.reason, "still down");
            assert_eq!(tries, 4);
            assert_eq!(total_delay, Duration::from_millis(40));
        }
        other => panic!("unexpected step {:?}", other),
    }
}

#[test]
fn policy_without_delays_gives_up_after_the_first_attempt() {
    let policy = RetryPolicy { delays_ms: Vec::new() };
    match on_failure(&policy, RetryState::first(), cause("down"), false) {
        RetryStep::GiveUp { error } => {
            assert_eq!(error.kind(), ErrorKind::Network);
            assert!(matches!(error, Error::Connection(retry::Error::Operation { tries: 1, .. })));
        }
        other => panic!("unexpected step {:?}", other),
    }
}

#[test]
fn cancelled_call_is_not_tried_again() {
    let policy = RetryPolicy { delays_ms: vec![10, 10, 20] };
    assert!(matches!(
        on_failure(&policy, RetryState::first(), cause("down"), true),
        RetryStep::Cancelled
    ));
    assert!(matches!(
        on_failure(&policy, RetryState { failed: 9, waited_ms: 40 }, cause("down"), true),
        RetryStep::Cancelled
    ));
}

#[test]
fn waited_time_and_tries_stop_at_the_largest_u64() {
    let policy = RetryPolicy { delays_ms: vec![5] };
    match on_failure(&policy, RetryState { failed: 0, waited_ms: u64::MAX - 2 }, cause("down"), false) {
        RetryStep::Wait { next, .. } => assert_eq!(next.waited_ms, u64::MAX),
        other => panic!("unexpected step {:?}", other),
    }
    match on_failure(&policy, RetryState { failed: u64::MAX, waited_ms: 0 }, cause("down"), false) {
        RetryStep::GiveUp { error } => {
            assert!(matches!(error, Error::Connection(retry::Error::Operation { tries: u64::MAX, .. })));
        }
        other => panic!("unexpected step {:?}", other),
    }
}

#[test]
fn exhausted_carries_cause_delay_and_tries() {
    match exhausted(cause("refused"), 1500, 6) {
        Error::Connection(retry::Error::Operation { error, total_delay, tries }) => {
            assert_eq!(error.reason, "refused");
            assert_eq!(total_delay, Duration::from_millis(1500));
            assert_eq!(tries, 6);
        }
        other => panic!("unexpected error {:?}", other),
    }
}

#[test]
fn fibonacci_policy_starts_with_the_base_twice_and_adds_up() {
    assert_eq!(RetryPolicy::fibonacci(10, 6).delays_ms, vec![10, 10, 20, 30, 50, 80]);
    assert_eq!(RetryPolicy::fibonacci(1, 5).delays_ms, vec![1, 1, 2, 3, 5]);
    assert!(RetryPolicy::fibonacci(10, 0).delays_ms.is_empty());
}

#[test]
fn fibonacci_policy_stops_growing_at_the_largest_u64() {
    let half = u64::MAX / 2 + 1;
    assert_eq!(
        RetryPolicy::fibonacci(half, 4).delays_ms,
        vec![half, half, u64::MAX, u64::MAX]
    );
    assert_eq!(RetryPolicy::fibonacci(u64::MAX, 2).delays_ms, vec![u64::MAX, u64::MAX]);
}

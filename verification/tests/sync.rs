use mobilecoind::database::Database;
use mobilecoind::error::Error;
use mobilecoind::monitor_store::MonitorParams;
use mobilecoind::sync::{next_action, process_block, sync_monitor, Block, ScannedOutput, SyncAction};
use mobilecoind::types::{Key32, MonitorId};
use mobilecoind::utxo_store::UnspentTxOut;

fn key(n: u64) -> Key32 {
    Key32 { w0: 0, w1: 0, w2: 42, w3: n }
}

fn image(n: u64) -> Key32 {
    Key32 { w0: 77, w1: 0, w2: 0, w3: n }
}

/// A database with one monitor that watches the subaddresses 0 and 1, whose
/// spend public keys are `key(0)` and `key(1)`.
fn database(first_block: u64) -> (Database, MonitorId) {
    let mut db = Database::new();
    let params = MonitorParams {
        account: key(900),
        first_subaddress: 0,
        num_subaddresses: 2,
        first_block,
    };
    let id = db.add_monitor(params, &vec![key(0), key(1)]).unwrap();
    (db, id)
}

fn output(id: u64, pays_to: Key32, value: u64) -> ScannedOutput {
    ScannedOutput { output_id: id, spend_public_key: pays_to, value, key_image: image(id) }
}

fn block(index: u64, outputs: Vec<ScannedOutput>, key_images: Vec<Key32>) -> Block {
    Block { index, outputs, key_images: Some(key_images) }
}

#[test]
fn output_in_block_three_spent_in_block_four_leaves_an_empty_store_and_cursor_five() {
    let (mut db, id) = database(0);
    let blocks = vec![
        block(0, vec![output(0, key(500), 1)], vec![]),
        block(1, vec![output(1, key(501), 1)], vec![image(0)]),
        block(2, vec![output(2, key(502), 1)], vec![image(1)]),
        block(3, vec![output(3, key(1), 250), output(4, key(503), 1)], vec![image(2)]),
        block(4, vec![output(5, key(504), 1)], vec![image(3)]),
    ];
    assert_eq!(next_action(&db, id, 5).unwrap(), SyncAction::Fetch(0));
    let outcome = sync_monitor(&mut db, id, &blocks);
    assert_eq!(outcome.processed, 5);
    assert!(outcome.stopped_by.is_none());
    assert_eq!(db.utxos.len(), 0);
    assert_eq!(db.monitors.get(id).unwrap().next_block, 5);
    assert_eq!(next_action(&db, id, 5).unwrap(), SyncAction::UpToDate);
}

#[test]
fn owned_output_is_recorded_with_its_subaddress_and_block() {
    let (mut db, id) = database(7);
    let found =
        process_block(&mut db, id, &block(7, vec![output(30, key(500), 9), output(31, key(1), 250)], vec![]))
            .unwrap();
    assert_eq!(found, 1);
    assert_eq!(
        db.utxos.list_for_monitor(id),
        vec![UnspentTxOut {
            output_id: 31,
            monitor_id: id,
            subaddress_index: 1,
            value: 250,
            key_image: image(31),
            block_index: 7,
        }]
    );
    assert_eq!(db.balance(id).unwrap(), 250);
    assert_eq!(db.monitors.get(id).unwrap().next_block, 8);
}

#[test]
fn output_that_pays_to_another_monitor_is_not_recorded() {
    let (mut db, id) = database(0);
    let other = db
        .add_monitor(
            MonitorParams { account: key(901), first_subaddress: 0, num_subaddresses: 1, first_block: 0 },
            &vec![key(2)],
        )
        .unwrap();
    let found = process_block(&mut db, id, &block(0, vec![output(1, key(2), 10)], vec![])).unwrap();
    assert_eq!(found, 0);
    assert_eq!(db.utxos.len(), 0);
    assert_eq!(db.monitors.get(id).unwrap().next_block, 1);
    assert_eq!(db.monitors.get(other).unwrap().next_block, 0);
}

#[test]
fn key_image_of_a_foreign_output_is_passed_over() {
    let (mut db, id) = database(0);
    process_block(&mut db, id, &block(0, vec![output(1, key(0), 10)], vec![])).unwrap();
    process_block(&mut db, id, &block(1, vec![], vec![image(99)])).unwrap();
    assert_eq!(db.utxos.len(), 1);
    assert_eq!(db.monitors.get(id).unwrap().next_block, 2);
}

#[test]
fn output_spent_in_its_own_block_is_gone_after_the_block() {
    let (mut db, id) = database(0);
    let found = process_block(&mut db, id, &block(0, vec![output(1, key(0), 10)], vec![image(1)])).unwrap();
    assert_eq!(found, 1);
    assert_eq!(db.utxos.len(), 0);
}

#[test]
fn block_with_outputs_but_no_key_images_is_a_fault_and_changes_nothing() {
    let (mut db, id) = database(0);
    let broken = Block { index: 0, outputs: vec![output(1, key(0), 10)], key_images: None };
    assert!(matches!(process_block(&mut db, id, &broken), Err(Error::MissingKeyImagesInLedgerDb)));
    assert_eq!(db.utxos.len(), 0);
    assert_eq!(db.monitors.get(id).unwrap().next_block, 0);
}

#[test]
fn empty_block_without_key_images_is_processed() {
    let (mut db, id) = database(0);
    let empty = Block { index: 0, outputs: vec![], key_images: None };
    assert_eq!(process_block(&mut db, id, &empty).unwrap(), 0);
    assert_eq!(db.monitors.get(id).unwrap().next_block, 1);
}

#[test]
fn blocks_are_taken_in_order_only() {
    let (mut db, id) = database(3);
    assert!(matches!(
        process_block(&mut db, id, &block(2, vec![], vec![])),
        Err(Error::BlockIndexTooSmall(2, 3))
    ));
    assert!(matches!(
        process_block(&mut db, id, &block(4, vec![], vec![])),
        Err(Error::BlockNotYetProcessed(4, 3))
    ));
    assert_eq!(db.monitors.get(id).unwrap().next_block, 3);
    assert!(process_block(&mut db, id, &block(3, vec![], vec![])).is_ok());
    assert!(matches!(
        process_block(&mut db, id, &block(3, vec![], vec![])),
        Err(Error::BlockIndexTooSmall(3, 4))
    ));
}

#[test]
fn the_last_height_of_u64_is_no_block() {
    let (mut db, id) = database(u64::MAX);
    assert!(matches!(
        process_block(&mut db, id, &block(u64::MAX, vec![], vec![])),
        Err(Error::BlockNotYetProcessed(u64::MAX, u64::MAX))
    ));
}

#[test]
fn block_for_an_unknown_monitor_is_not_found() {
    let (mut db, id) = database(0);
    db.remove_monitor(id).unwrap();
    assert!(matches!(
        process_block(&mut db, id, &block(0, vec![], vec![])),
        Err(Error::MonitorIdNotFound)
    ));
    assert!(matches!(next_action(&db, id, 5), Err(Error::MonitorIdNotFound)));
    let outcome = sync_monitor(&mut db, id, &vec![block(0, vec![], vec![])]);
    assert_eq!(outcome.processed, 0);
    assert!(matches!(outcome.stopped_by, Some(Error::MonitorIdNotFound)));
}

#[test]
fn sync_stops_at_the_first_block_that_cannot_be_processed() {
    let (mut db, id) = database(0);
    let blocks = vec![
        block(0, vec![output(1, key(0), 10)], vec![]),
        Block { index: 1, outputs: vec![output(2, key(1), 20)], key_images: None },
        block(2, vec![output(3, key(0), 30)], vec![]),
    ];
    let outcome = sync_monitor(&mut db, id, &blocks);
    assert_eq!(outcome.processed, 1);
    assert!(matches!(outcome.stopped_by, Some(Error::MissingKeyImagesInLedgerDb)));
    assert_eq!(db.monitors.get(id).unwrap().next_block, 1);
    assert_eq!(db.balance(id).unwrap(), 10);
}

#[test]
fn next_action_fetches_the_block_at_the_cursor() {
    let (mut db, id) = database(2);
    assert_eq!(next_action(&db, id, 2).unwrap(), SyncAction::UpToDate);
    assert_eq!(next_action(&db, id, 0).unwrap(), SyncAction::UpToDate);
    assert_eq!(next_action(&db, id, 3).unwrap(), SyncAction::Fetch(2));
    process_block(&mut db, id, &block(2, vec![], vec![])).unwrap();
    assert_eq!(next_action(&db, id, 10).unwrap(), SyncAction::Fetch(3));
}

/// What a crash in the middle of `b` leaves in the store: the first `i`
/// outputs scanned and the first `j` key images applied, the cursor where it
/// was.
fn crash_in(db: &mut Database, id: MonitorId, b: &Block, i: usize, j: usize) {
    for o in b.outputs.iter().take(i) {
        if let Some((owner, subaddress_index)) = db.subaddresses.lookup(o.spend_public_key) {
            if owner == id {
                let _ = db.utxos.insert(UnspentTxOut {
                    output_id: o.output_id,
                    monitor_id: id,
                    subaddress_index,
                    value: o.value,
                    key_image: o.key_image,
                    block_index: b.index,
                });
            }
        }
    }
    for k in b.key_images.as_ref().unwrap().iter().take(j) {
        db.utxos.remove_by_key_image(*k);
    }
}

#[test]
fn replay_after_a_crash_anywhere_gives_the_store_of_an_uninterrupted_run() {
    let blocks = vec![
        block(0, vec![output(1, key(0), 10), output(2, key(1), 20), output(3, key(500), 1)], vec![]),
        block(1, vec![output(4, key(1), 40), output(5, key(0), 50)], vec![image(1), image(4), image(99)]),
        block(2, vec![output(6, key(0), 60)], vec![image(2)]),
    ];
    let (mut straight, id) = database(0);
    assert_eq!(sync_monitor(&mut straight, id, &blocks).processed, 3);
    let expected = straight.utxos.list_for_monitor(id);
    assert_eq!(expected.iter().map(|u| u.output_id).collect::<Vec<u64>>(), vec![5, 6]);
    for at in 0..blocks.len() {
        let outs = blocks[at].outputs.len();
        let images = blocks[at].key_images.as_ref().unwrap().len();
        for i in 0..=outs {
            for j in 0..=images {
                let (mut db, id) = database(0);
                let done: Vec<Block> = blocks[..at]
                    .iter()
                    .map(|b| Block { index: b.index, outputs: b.outputs.clone(), key_images: b.key_images.clone() })
                    .collect();
                assert_eq!(sync_monitor(&mut db, id, &done).processed, at);
                crash_in(&mut db, id, &blocks[at], i, j);
                assert_eq!(db.monitors.get(id).unwrap().next_block, at as u64);
                let rest: Vec<Block> = blocks[at..]
                    .iter()
                    .map(|b| Block { index: b.index, outputs: b.outputs.clone(), key_images: b.key_images.clone() })
                    .collect();
                let outcome = sync_monitor(&mut db, id, &rest);
                assert!(outcome.stopped_by.is_none());
                assert_eq!(db.utxos.list_for_monitor(id), expected);
                assert_eq!(db.monitors.get(id).unwrap().next_block, 3);
            }
        }
    }
}

#[test]
fn monitors_behind_are_those_with_blocks_to_process() {
    let (mut db, first) = database(0);
    let second = db
        .add_monitor(
            MonitorParams { account: key(901), first_subaddress: 0, num_subaddresses: 1, first_block: 4 },
            &vec![key(2)],
        )
        .unwrap();
    let ids = |db: &Database, height: u64| -> Vec<MonitorId> {
        mobilecoind::sync::monitors_behind(db, height).iter().map(|m| m.id()).collect()
    };
    assert_eq!(ids(&db, 0), Vec::<MonitorId>::new());
    assert_eq!(ids(&db, 4), vec![first]);
    assert_eq!(ids(&db, 5), vec![first, second]);
    sync_monitor(&mut db, first, &(0..5).map(|i| block(i, vec![], vec![])).collect());
    assert_eq!(ids(&db, 5), vec![second]);
}

//! The ledger sync engine: it scans one block after another for a monitor,
//! records the outputs that the monitor owns, drops those that a block shows
//! spent, and only then moves the monitor's cursor.

use crate::database::Database;
use crate::error::Error;
use crate::keyed::{lemma_filter_all_or_none, lemma_filter_members, lemma_filter_twice};
use crate::monitor_store::{
    find_monitor, has_monitor, lemma_cursor_moves_compose, lemma_find_after_cursor,
    lemma_with_cursor_keeps_ids, with_cursor, MonitorData,
};
use crate::subaddress_index::{find_subaddress, SubaddressEntry};
use crate::types::{Key32, MonitorId};
use crate::utxo_store::{has_output, not_spent_by, UnspentTxOut};
use vstd::prelude::*;

verus! {

/// An output of a block, as the scan of one monitor sees it.
#[derive(Clone, Copy, Debug, PartialEq, Eq, Structural)]
pub struct ScannedOutput {
    /// Position of the output in the ledger.
    pub output_id: u64,
    /// The subaddress spend public key that the output pays to, recovered
    /// with the monitor's view key.
    pub spend_public_key: Key32,
    /// The amount, as the monitor's keys reveal it. It counts only where the
    /// monitor owns the output.
    pub value: u64,
    /// The key image of the output under the monitor's keys. It counts only
    /// where the monitor owns the output.
    pub key_image: Key32,
}

/// A block of the ledger, as the scan of one monitor sees it.
#[derive(Debug)]
pub struct Block {
    /// Height of the block.
    pub index: u64,
    /// The outputs that the block creates.
    pub outputs: Vec<ScannedOutput>,
    /// The key images that the block spends, or `None` where the ledger holds
    /// no record of them.
    pub key_images: Option<Vec<Key32>>,
}

/// What a `Block` holds.
pub struct BlockView {
    pub index: u64,
    pub outputs: Seq<ScannedOutput>,
    pub key_images: Option<Seq<Key32>>,
}

impl View for Block {
    type V = BlockView;

    open spec fn view(&self) -> BlockView {
        BlockView {
            index: self.index,
            outputs: self.outputs@,
            key_images: match self.key_images {
                Some(v) => Some(v@),
                None => None,
            },
        }
    }
}

impl BlockView {
    /// The key images that the block spends, none where the ledger holds no
    /// record of them.
    pub open spec fn images(self) -> Seq<Key32> {
        match self.key_images {
            Some(k) => k,
            None => Seq::empty(),
        }
    }
}

/// The record of output `o`, found in block `block_index`, if monitor `m`
/// owns it: that is, if the index knows the key that `o` pays to as one of
/// `m`'s subaddresses.
pub open spec fn owned_record(
    index: Seq<SubaddressEntry>,
    m: MonitorId,
    block_index: u64,
    o: ScannedOutput,
) -> Option<UnspentTxOut> {
    match find_subaddress(index, o.spend_public_key) {
        Some(e) => if e.monitor_id == m {
            Some(
                UnspentTxOut {
                    output_id: o.output_id,
                    monitor_id: m,
                    subaddress_index: e.index,
                    value: o.value,
                    key_image: o.key_image,
                    block_index,
                },
            )
        } else {
            None
        },
        None => None,
    }
}

/// `s` with `u` at its end, unless `s` has a record of that output already.
pub open spec fn insert_if_new(s: Seq<UnspentTxOut>, u: UnspentTxOut) -> Seq<UnspentTxOut> {
    if has_output(s, u.output_id) {
        s
    } else {
        s.push(u)
    }
}

/// The store after the outputs `outs` of block `block_index` were scanned
/// for monitor `m`, one after the other.
pub open spec fn scan_outputs(
    s: Seq<UnspentTxOut>,
    index: Seq<SubaddressEntry>,
    m: MonitorId,
    block_index: u64,
    outs: Seq<ScannedOutput>,
) -> Seq<UnspentTxOut>
    decreases outs.len(),
{
    if outs.len() == 0 {
        s
    } else {
        let before = scan_outputs(s, index, m, block_index, outs.drop_last());
        match owned_record(index, m, block_index, outs.last()) {
            Some(u) => insert_if_new(before, u),
            None => before,
        }
    }
}

/// The records whose key image is none of `images`.
pub open spec fn not_spent_in(images: Seq<Key32>) -> spec_fn(UnspentTxOut) -> bool {
    |u: UnspentTxOut| !images.contains(u.key_image)
}

/// The store after the key images `images` were seen spent.
pub open spec fn spend_images(s: Seq<UnspentTxOut>, images: Seq<Key32>) -> Seq<UnspentTxOut> {
    s.filter(not_spent_in(images))
}

/// The store after block `b` was processed for monitor `m`: its outputs are
/// scanned first, then its key images are applied.
pub open spec fn apply_block(
    s: Seq<UnspentTxOut>,
    index: Seq<SubaddressEntry>,
    m: MonitorId,
    b: BlockView,
) -> Seq<UnspentTxOut> {
    spend_images(scan_outputs(s, index, m, b.index, b.outputs), b.images())
}

/// Why block `b` cannot be processed for the monitor `m`, if it cannot. A
/// monitor takes the block at its cursor and no other, and the last height
/// that `u64` can name is no block; a block with outputs needs its key
/// images.
pub open spec fn block_fault(m: MonitorData, b: BlockView) -> Option<Error> {
    if b.index < m.next_block {
        Some(Error::BlockIndexTooSmall(b.index, m.next_block))
    } else if b.index > m.next_block || b.index == u64::MAX {
        Some(Error::BlockNotYetProcessed(b.index, m.next_block))
    } else if b.key_images.is_none() && b.outputs.len() > 0 {
        Some(Error::MissingKeyImagesInLedgerDb)
    } else {
        None
    }
}

/// Scanning keeps every record that was there, in its place, and adds only
/// records of monitor `m`.
pub proof fn lemma_scan_extends(
    s: Seq<UnspentTxOut>,
    index: Seq<SubaddressEntry>,
    m: MonitorId,
    block_index: u64,
    outs: Seq<ScannedOutput>,
)
    ensures
        s.len() <= scan_outputs(s, index, m, block_index, outs).len(),
        forall|i: int| 0 <= i < s.len() ==> scan_outputs(s, index, m, block_index, outs)[i] == s[i],
        forall|i: int|
            s.len() <= i < scan_outputs(s, index, m, block_index, outs).len() ==> (
            #[trigger] scan_outputs(s, index, m, block_index, outs)[i]).monitor_id == m,
    decreases outs.len(),
{
    if outs.len() > 0 {
        lemma_scan_extends(s, index, m, block_index, outs.drop_last());
    }
}

/// Processes `block` for the monitor `id`: records the outputs that the
/// monitor owns (one that is recorded already is left alone), removes the
/// records that the block's key images show spent (one that matches nothing
/// is passed over), and moves the monitor's cursor past the block. Returns
/// the number of records that the scan added. A block that cannot be
/// processed changes nothing.
pub fn process_block(db: &mut Database, id: MonitorId, block: &Block) -> (r: Result<usize, Error>)
    requires
        old(db).wf(),
    ensures
        final(db).wf(),
        final(db).subaddresses@ == old(db).subaddresses@,
        match r {
            Ok(found) => {
                &&& find_monitor(old(db).monitors@, id) matches Some(m) && block_fault(m, block@)
                    is None && find_monitor(final(db).monitors@, id) == Some(
                    m.spec_with_cursor((block.index + 1) as u64),
                )
                &&& final(db).monitors@ == with_cursor(
                    old(db).monitors@,
                    id,
                    (block.index + 1) as u64,
                )
                &&& final(db).utxos@ == apply_block(
                    old(db).utxos@,
                    old(db).subaddresses@,
                    id,
                    block@,
                )
                &&& found == scan_outputs(
                    old(db).utxos@,
                    old(db).subaddresses@,
                    id,
                    block.index,
                    block.outputs@,
                ).len() - old(db).utxos@.len()
            },
            Err(e) => {
                &&& final(db).monitors@ == old(db).monitors@
                &&& final(db).utxos@ == old(db).utxos@
                &&& match find_monitor(old(db).monitors@, id) {
                    None => e == Error::MonitorIdNotFound,
                    Some(m) => block_fault(m, block@) == Some(e),
                }
            },
        },
{
    let monitor = match db.monitors.get(id) {
        Ok(m) => m,
        Err(e) => {
            return Err(e);
        },
    };
    if block.index < monitor.next_block {
        return Err(Error::BlockIndexTooSmall(block.index, monitor.next_block));
    }
    if block.index > monitor.next_block || block.index == u64::MAX {
        return Err(Error::BlockNotYetProcessed(block.index, monitor.next_block));
    }
    if block.key_images.is_none() && block.outputs.len() > 0 {
        return Err(Error::MissingKeyImagesInLedgerDb);
    }
    let ghost index = db.subaddresses@;
    let ghost before = db.utxos@;
    let mut found: usize = 0;
    let mut i: usize = 0;
    while i < block.outputs.len()
        invariant
            i <= block.outputs.len(),
            db.wf(),
            db.monitors@ == old(db).monitors@,
            db.subaddresses@ == index,
            has_monitor(db.monitors@, id),
            db.utxos@ == scan_outputs(before, index, id, block.index, block.outputs@.take(i as int)),
            found == db.utxos@.len() - before.len(),
            found <= i,
        decreases block.outputs.len() - i,
    {
        let o = block.outputs[i];
        proof {
            assert(block.outputs@.take(i as int + 1).drop_last() =~= block.outputs@.take(i as int));
            lemma_scan_extends(before, index, id, block.index, block.outputs@.take(i as int));
        }
        match db.subaddresses.lookup(o.spend_public_key) {
            Some((owner, subaddress_index)) => {
                if owner == id {
                    let u = UnspentTxOut {
                        output_id: o.output_id,
                        monitor_id: id,
                        subaddress_index,
                        value: o.value,
                        key_image: o.key_image,
                        block_index: block.index,
                    };
                    if db.utxos.insert(u).is_ok() {
                        found += 1;
                    }
                }
            },
            None => {},
        }
        i += 1;
    }
    proof {
        assert(block.outputs@.take(i as int) =~= block.outputs@);
    }
    let ghost scanned = db.utxos@;
    match &block.key_images {
        Some(images) => {
            let mut j: usize = 0;
            proof {
                assert(images@.take(0).len() == 0);
                lemma_filter_all_or_none(scanned, not_spent_in(images@.take(0)));
            }
            while j < images.len()
                invariant
                    j <= images.len(),
                    db.wf(),
                    db.monitors@ == old(db).monitors@,
                    db.subaddresses@ == index,
                    db.utxos@ == spend_images(scanned, images@.take(j as int)),
                decreases images.len() - j,
            {
                let k = images[j];
                let ghost seen = images@.take(j as int);
                let ghost next = images@.take(j as int + 1);
                proof {
                    assert(next =~= seen.push(k));
                    assert forall|u: UnspentTxOut| #[trigger]
                        not_spent_in(next)(u) == (not_spent_in(seen)(u) && not_spent_by(k)(u)) by {
                        if seen.contains(u.key_image) {
                            let a = choose|a: int| 0 <= a < seen.len() && seen[a] == u.key_image;
                            assert(next[a] == u.key_image);
                        }
                        if u.key_image == k {
                            assert(next[j as int] == u.key_image);
                        }
                        if next.contains(u.key_image) {
                            let a = choose|a: int| 0 <= a < next.len() && next[a] == u.key_image;
                            if a < j {
                                assert(seen[a] == u.key_image);
                            }
                        }
                    }
                    lemma_filter_twice(scanned, not_spent_in(seen), not_spent_by(k), not_spent_in(next));
                    lemma_filter_members(db.utxos@, not_spent_by(k));
                }
                let ghost held = db.utxos@;
                db.utxos.remove_by_key_image(k);
                proof {
                    assert forall|a: int| 0 <= a < db.utxos@.len() implies has_monitor(
                        db.monitors@,
                        (#[trigger] db.utxos@[a]).monitor_id,
                    ) by {
                        assert(db.utxos@.contains(db.utxos@[a]));
                        let u = db.utxos@[a];
                        assert(held.contains(u));
                        let b = choose|b: int| 0 <= b < held.len() && held[b] == u;
                        assert(has_monitor(db.monitors@, held[b].monitor_id));
                    }
                }
                j += 1;
            }
            proof {
                assert(images@.take(j as int) =~= images@);
            }
        },
        None => {
            proof {
                lemma_filter_all_or_none(scanned, not_spent_in(Seq::<Key32>::empty()));
            }
        },
    }
    let moved = db.monitors.advance_cursor(id, block.index + 1);
    proof {
        assert(moved is Ok);
        lemma_with_cursor_keeps_ids(old(db).monitors@, id, (block.index + 1) as u64);
    }
    Ok(found)
}

/// What each block of `blocks` holds.
pub open spec fn block_views(blocks: Seq<Block>) -> Seq<BlockView> {
    blocks.map_values(|b: Block| b@)
}

/// The store after `blocks` were processed for monitor `m`, one after the
/// other.
pub open spec fn apply_blocks(
    s: Seq<UnspentTxOut>,
    index: Seq<SubaddressEntry>,
    m: MonitorId,
    blocks: Seq<BlockView>,
) -> Seq<UnspentTxOut>
    decreases blocks.len(),
{
    if blocks.len() == 0 {
        s
    } else {
        apply_block(apply_blocks(s, index, m, blocks.drop_last()), index, m, blocks.last())
    }
}

/// What the engine does next for a monitor.
#[derive(Clone, Copy, Debug, PartialEq, Eq, Structural)]
pub enum SyncAction {
    /// Fetch the block at this height and process it.
    Fetch(u64),
    /// Every block of the ledger is processed.
    UpToDate,
}

/// What the monitor `id` has to do next when the ledger holds `ledger_height`
/// blocks: fetch the block at its cursor, if the ledger has it.
pub fn next_action(db: &Database, id: MonitorId, ledger_height: u64) -> (r: Result<
    SyncAction,
    Error,
>)
    requires
        db.wf(),
    ensures
        match r {
            Ok(a) => find_monitor(db.monitors@, id) matches Some(m) && a == if m.next_block
                < ledger_height {
                SyncAction::Fetch(m.next_block)
            } else {
                SyncAction::UpToDate
            },
            Err(e) => e == Error::MonitorIdNotFound && find_monitor(db.monitors@, id).is_none(),
        },
{
    match db.monitors.get(id) {
        Ok(m) => if m.next_block < ledger_height {
            Ok(SyncAction::Fetch(m.next_block))
        } else {
            Ok(SyncAction::UpToDate)
        },
        Err(e) => Err(e),
    }
}

/// The monitors whose cursor stands below `ledger_height`.
pub open spec fn behind(ledger_height: u64) -> spec_fn(MonitorData) -> bool {
    |m: MonitorData| m.next_block < ledger_height
}

/// The monitors that have blocks to process when the ledger holds
/// `ledger_height` blocks, in the order in which they were registered.
pub fn monitors_behind(db: &Database, ledger_height: u64) -> (r: Vec<MonitorData>)
    ensures
        r@ == db.monitors@.filter(behind(ledger_height)),
{
    let all = db.monitors.list();
    let mut out: Vec<MonitorData> = Vec::new();
    let mut i: usize = 0;
    proof {
        reveal(Seq::filter);
        assert(all@.take(0).len() == 0);
    }
    while i < all.len()
        invariant
            i <= all.len(),
            out@ == all@.take(i as int).filter(behind(ledger_height)),
        decreases all.len() - i,
    {
        let m = all[i];
        proof {
            all@.lemma_take_succ_push(i as int);
            all@.take(i as int).lemma_filter_push(m, behind(ledger_height));
        }
        if m.next_block < ledger_height {
            out.push(m);
        }
        i += 1;
    }
    proof {
        all@.lemma_take_len();
    }
    out
}

/// How a run over several blocks ended.
#[derive(Debug)]
pub struct SyncOutcome {
    /// The number of blocks that were processed.
    pub processed: usize,
    /// Why the run stopped before the last block, if it did.
    pub stopped_by: Option<Error>,
}

/// Processes `blocks` for the monitor `id`, one after the other, and stops at
/// the first that cannot be processed. The blocks before that one stay
/// processed, and the monitor's cursor stands behind the last of them.
pub fn sync_monitor(db: &mut Database, id: MonitorId, blocks: &Vec<Block>) -> (r: SyncOutcome)
    requires
        old(db).wf(),
    ensures
        final(db).wf(),
        final(db).subaddresses@ == old(db).subaddresses@,
        r.processed <= blocks@.len(),
        r.stopped_by is None <==> r.processed == blocks@.len(),
        final(db).utxos@ == apply_blocks(
            old(db).utxos@,
            old(db).subaddresses@,
            id,
            block_views(blocks@).take(r.processed as int),
        ),
        match find_monitor(old(db).monitors@, id) {
            Some(m) => {
                &&& m.next_block + r.processed <= u64::MAX
                &&& final(db).monitors@ == with_cursor(
                    old(db).monitors@,
                    id,
                    (m.next_block + r.processed) as u64,
                )
                &&& r.stopped_by matches Some(e) ==> block_fault(
                    m.spec_with_cursor((m.next_block + r.processed) as u64),
                    blocks@[r.processed as int]@,
                ) == Some(e)
            },
            None => {
                &&& final(db).monitors@ == old(db).monitors@
                &&& r.processed == 0
                &&& r.stopped_by matches Some(e) ==> e == Error::MonitorIdNotFound
            },
        },
{
    let ghost index = db.subaddresses@;
    let ghost before = db.utxos@;
    let ghost monitors = db.monitors@;
    let ghost views = block_views(blocks@);
    let mut k: usize = 0;
    proof {
        assert(views.take(0).len() == 0);
        if has_monitor(monitors, id) {
            let i = choose|i: int| 0 <= i < monitors.len() && (#[trigger] monitors[i]).spec_id() == id;
            assert(monitors[i].first_block <= monitors[i].next_block);
            assert(with_cursor(monitors, id, find_monitor(monitors, id).unwrap().next_block)
                =~= monitors) by {
                assert forall|a: int| 0 <= a < monitors.len() && monitors[a].spec_id()
                    == id implies a == i by {
                    if a < i {
                        assert(monitors[a].spec_id() != monitors[i].spec_id());
                    }
                    if i < a {
                        assert(monitors[i].spec_id() != monitors[a].spec_id());
                    }
                }
            }
        }
    }
    while k < blocks.len()
        invariant
            k <= blocks.len(),
            db.wf(),
            monitors == old(db).monitors@,
            index == old(db).subaddresses@,
            before == old(db).utxos@,
            crate::monitor_store::monitors_distinct(monitors),
            views == block_views(blocks@),
            db.subaddresses@ == index,
            db.utxos@ == apply_blocks(before, index, id, views.take(k as int)),
            match find_monitor(monitors, id) {
                Some(m) => m.next_block + k <= u64::MAX && db.monitors@ == with_cursor(
                    monitors,
                    id,
                    (m.next_block + k) as u64,
                ),
                None => db.monitors@ == monitors && k == 0,
            },
        decreases blocks.len() - k,
    {
        proof {
            assert(views.take(k as int + 1).drop_last() =~= views.take(k as int));
            assert(views.take(k as int + 1).last() == blocks@[k as int]@);
            if has_monitor(monitors, id) {
                let m = find_monitor(monitors, id).unwrap();
                lemma_find_after_cursor(monitors, id, (m.next_block + k) as u64);
            }
        }
        match process_block(db, id, &blocks[k]) {
            Ok(_) => {
                proof {
                    let m = find_monitor(monitors, id).unwrap();
                    lemma_cursor_moves_compose(
                        monitors,
                        id,
                        (m.next_block + k) as u64,
                        (m.next_block + k + 1) as u64,
                    );
                }
                k += 1;
            },
            Err(e) => {
                return SyncOutcome { processed: k, stopped_by: Some(e) };
            },
        }
    }
    SyncOutcome { processed: k, stopped_by: None }
}

} // verus!

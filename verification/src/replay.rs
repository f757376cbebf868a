//! Crash and replay: a scan that is cut short and run again from the
//! monitor's cursor ends with the store that an uninterrupted scan gives.

use crate::keyed::{lemma_filter_all_or_none, lemma_filter_members, lemma_filter_twice};
use crate::subaddress_index::SubaddressEntry;
use crate::sync::{
    apply_block, apply_blocks, not_spent_in, owned_record, scan_outputs,
    spend_images, BlockView, ScannedOutput,
};
use crate::types::MonitorId;
use crate::utxo_store::{has_output, lemma_filter_ids, UnspentTxOut};
use vstd::prelude::*;

verus! {

/// The records of the outputs among `outs` that monitor `m` owns, in the
/// order of `outs`.
pub open spec fn owned_records(
    index: Seq<SubaddressEntry>,
    m: MonitorId,
    block_index: u64,
    outs: Seq<ScannedOutput>,
) -> Seq<UnspentTxOut>
    decreases outs.len(),
{
    if outs.len() == 0 {
        Seq::empty()
    } else {
        let front = owned_records(index, m, block_index, outs.drop_last());
        match owned_record(index, m, block_index, outs.last()) {
            Some(u) => front.push(u),
            None => front,
        }
    }
}

/// The records of outputs that `c` does not hold.
pub open spec fn absent_from(c: Seq<UnspentTxOut>) -> spec_fn(UnspentTxOut) -> bool {
    |u: UnspentTxOut| !has_output(c, u.output_id)
}

/// No two outputs of `outs` have the same output id.
pub open spec fn output_ids_distinct(outs: Seq<ScannedOutput>) -> bool {
    forall|a: int, b: int|
        0 <= a < b < outs.len() ==> (#[trigger] outs[a]).output_id != (#[trigger] outs[b]).output_id
}

/// The outputs `outs` are new to the store `s`: their ids differ from each
/// other and from those of every record of `s`.
pub open spec fn outputs_are_new(s: Seq<UnspentTxOut>, outs: Seq<ScannedOutput>) -> bool {
    &&& output_ids_distinct(outs)
    &&& forall|a: int| 0 <= a < outs.len() ==> !has_output(s, (#[trigger] outs[a]).output_id)
}

/// The store as a crash leaves it in the middle of block `b`: the first `i`
/// outputs are scanned and the first `j` key images are applied.
pub open spec fn interrupted(
    s: Seq<UnspentTxOut>,
    index: Seq<SubaddressEntry>,
    m: MonitorId,
    b: BlockView,
    i: int,
    j: int,
) -> Seq<UnspentTxOut> {
    spend_images(scan_outputs(s, index, m, b.index, b.outputs.take(i)), b.images().take(j))
}

/// The outputs of `blocks` are new to the store `s`: no output id stands
/// twice in the blocks, and none is the id of a record of `s`.
pub open spec fn ledger_is_new(s: Seq<UnspentTxOut>, blocks: Seq<BlockView>) -> bool {
    &&& forall|b: int, a: int|
        0 <= b < blocks.len() && 0 <= a < blocks[b].outputs.len() ==> !has_output(
            s,
            (#[trigger] blocks[b].outputs[a]).output_id,
        )
    &&& forall|b1: int, a1: int, b2: int, a2: int|
        0 <= b1 < blocks.len() && 0 <= a1 < blocks[b1].outputs.len() && 0 <= b2 < blocks.len() && 0
            <= a2 < blocks[b2].outputs.len() && (b1 != b2 || a1 != a2) ==> (
        #[trigger] blocks[b1].outputs[a1]).output_id != (#[trigger] blocks[b2].outputs[a2]).output_id
}

/// Every owned record stands for an output of `outs`.
proof fn lemma_owned_come_from(
    index: Seq<SubaddressEntry>,
    m: MonitorId,
    block_index: u64,
    outs: Seq<ScannedOutput>,
)
    ensures
        forall|i: int|
            0 <= i < owned_records(index, m, block_index, outs).len() ==> exists|a: int|
                0 <= a < outs.len() && (#[trigger] outs[a]).output_id == (#[trigger] owned_records(
                    index,
                    m,
                    block_index,
                    outs,
                )[i]).output_id,
    decreases outs.len(),
{
    if outs.len() > 0 {
        let front = outs.drop_last();
        let n = owned_records(index, m, block_index, outs);
        let nf = owned_records(index, m, block_index, front);
        lemma_owned_come_from(index, m, block_index, front);
        assert forall|i: int| 0 <= i < n.len() implies exists|a: int|
            0 <= a < outs.len() && (#[trigger] outs[a]).output_id == (#[trigger] n[i]).output_id by {
            if i < nf.len() {
                assert(n[i] == nf[i]);
                let a = choose|a: int|
                    0 <= a < front.len() && (#[trigger] front[a]).output_id == nf[i].output_id;
                assert(outs[a].output_id == n[i].output_id);
            } else {
                assert(outs[outs.len() - 1].output_id == n[i].output_id);
            }
        }
    }
}

/// The owned records of two runs of outputs, one after the other, are those
/// of the first followed by those of the second.
proof fn lemma_owned_of_concat(
    index: Seq<SubaddressEntry>,
    m: MonitorId,
    block_index: u64,
    x: Seq<ScannedOutput>,
    y: Seq<ScannedOutput>,
)
    ensures
        owned_records(index, m, block_index, x + y) == owned_records(index, m, block_index, x)
            + owned_records(index, m, block_index, y),
    decreases y.len(),
{
    if y.len() == 0 {
        assert(x + y =~= x);
        assert(owned_records(index, m, block_index, x) + owned_records(index, m, block_index, y)
            =~= owned_records(index, m, block_index, x));
    } else {
        assert((x + y).drop_last() =~= x + y.drop_last());
        assert((x + y).last() == y.last());
        lemma_owned_of_concat(index, m, block_index, x, y.drop_last());
        let nx = owned_records(index, m, block_index, x);
        let nyf = owned_records(index, m, block_index, y.drop_last());
        match owned_record(index, m, block_index, y.last()) {
            Some(u) => {
                assert((nx + nyf).push(u) =~= nx + nyf.push(u));
            },
            None => {},
        }
    }
}

/// Scanning outputs with distinct ids appends the owned records that the
/// store does not hold yet.
proof fn lemma_scan_appends_absent(
    c: Seq<UnspentTxOut>,
    index: Seq<SubaddressEntry>,
    m: MonitorId,
    block_index: u64,
    outs: Seq<ScannedOutput>,
)
    requires
        output_ids_distinct(outs),
    ensures
        scan_outputs(c, index, m, block_index, outs) == c + owned_records(
            index,
            m,
            block_index,
            outs,
        ).filter(absent_from(c)),
    decreases outs.len(),
{
    reveal(Seq::filter);
    if outs.len() == 0 {
        assert(c + Seq::<UnspentTxOut>::empty() =~= c);
    } else {
        let front = outs.drop_last();
        let o = outs.last();
        assert(output_ids_distinct(front)) by {
            assert forall|a: int, b: int| 0 <= a < b < front.len() implies (#[trigger] front[a]).output_id
                != (#[trigger] front[b]).output_id by {
                assert(outs[a].output_id != outs[b].output_id);
            }
        }
        lemma_scan_appends_absent(c, index, m, block_index, front);
        lemma_owned_come_from(index, m, block_index, front);
        let nf = owned_records(index, m, block_index, front);
        let kept = nf.filter(absent_from(c));
        let t = scan_outputs(c, index, m, block_index, front);
        match owned_record(index, m, block_index, o) {
            Some(u) => {
                nf.lemma_filter_push(u, absent_from(c));
                lemma_filter_members(nf, absent_from(c));
                if has_output(c, u.output_id) {
                    let i = choose|i: int| 0 <= i < c.len() && (#[trigger] c[i]).output_id == u.output_id;
                    assert(t[i].output_id == u.output_id);
                } else {
                    if has_output(t, u.output_id) {
                        let i = choose|i: int|
                            0 <= i < t.len() && (#[trigger] t[i]).output_id == u.output_id;
                        if i < c.len() {
                            assert(c[i].output_id == u.output_id);
                        } else {
                            let x = kept[i - c.len()];
                            assert(kept.contains(x));
                            assert(nf.contains(x));
                            let q = choose|q: int| 0 <= q < nf.len() && nf[q] == x;
                            let a = choose|a: int|
                                0 <= a < front.len() && (#[trigger] front[a]).output_id
                                    == nf[q].output_id;
                            assert(outs[a].output_id != outs[outs.len() - 1].output_id);
                        }
                        assert(false);
                    }
                    assert(t.push(u) =~= c + kept.push(u));
                }
            },
            None => {},
        }
    }
}

/// Scanning adds only records of the outputs it is given.
proof fn lemma_scan_ids(
    s: Seq<UnspentTxOut>,
    index: Seq<SubaddressEntry>,
    m: MonitorId,
    block_index: u64,
    outs: Seq<ScannedOutput>,
)
    ensures
        forall|id: u64| #[trigger]
            has_output(scan_outputs(s, index, m, block_index, outs), id) ==> has_output(s, id) || (
            exists|a: int| 0 <= a < outs.len() && (#[trigger] outs[a]).output_id == id),
    decreases outs.len(),
{
    if outs.len() > 0 {
        let front = outs.drop_last();
        let t = scan_outputs(s, index, m, block_index, front);
        let r = scan_outputs(s, index, m, block_index, outs);
        lemma_scan_ids(s, index, m, block_index, front);
        assert forall|id: u64| #[trigger] has_output(r, id) implies has_output(s, id) || (exists|
            a: int,
        | 0 <= a < outs.len() && (#[trigger] outs[a]).output_id == id) by {
            let i = choose|i: int| 0 <= i < r.len() && (#[trigger] r[i]).output_id == id;
            if i < t.len() {
                assert(t[i].output_id == id);
                assert(has_output(t, id));
                if !has_output(s, id) {
                    let a = choose|a: int| 0 <= a < front.len() && (#[trigger] front[a]).output_id == id;
                    assert(outs[a].output_id == id);
                }
            } else {
                assert(outs[outs.len() - 1].output_id == id);
            }
        }
    }
}

/// A block that is processed again after a crash in its middle leaves the
/// store that processing it once without a crash leaves, wherever the crash
/// fell: after any number `i` of its outputs and any number `j` of its key
/// images. This holds where the block's outputs are new to the store.
pub proof fn lemma_block_replay(
    s: Seq<UnspentTxOut>,
    index: Seq<SubaddressEntry>,
    m: MonitorId,
    b: BlockView,
    i: int,
    j: int,
)
    requires
        outputs_are_new(s, b.outputs),
        0 <= i <= b.outputs.len(),
        0 <= j <= b.images().len(),
    ensures
        apply_block(interrupted(s, index, m, b, i, j), index, m, b) == apply_block(s, index, m, b),
{
    let outs = b.outputs;
    let images = b.images();
    let head = outs.take(i);
    let tail = outs.skip(i);
    let n = owned_records(index, m, b.index, outs);
    let n_head = owned_records(index, m, b.index, head);
    let n_tail = owned_records(index, m, b.index, tail);
    let live = not_spent_in(images);
    let live_so_far = not_spent_in(images.take(j));
    assert(head + tail =~= outs);
    lemma_owned_of_concat(index, m, b.index, head, tail);
    assert(output_ids_distinct(head)) by {
        assert forall|x: int, y: int| 0 <= x < y < head.len() implies (#[trigger] head[x]).output_id
            != (#[trigger] head[y]).output_id by {
            assert(outs[x].output_id != outs[y].output_id);
        }
    }
    lemma_owned_come_from(index, m, b.index, head);
    lemma_owned_come_from(index, m, b.index, tail);
    lemma_owned_come_from(index, m, b.index, outs);
    // What was scanned before the crash, and what an uninterrupted scan gives.
    lemma_scan_appends_absent(s, index, m, b.index, head);
    lemma_scan_appends_absent(s, index, m, b.index, outs);
    assert(n_head.filter(absent_from(s)) == n_head) by {
        assert forall|x: int| 0 <= x < n_head.len() implies absent_from(s)(#[trigger] n_head[x]) by {
            let a = choose|a: int|
                0 <= a < head.len() && (#[trigger] head[a]).output_id == n_head[x].output_id;
            assert(outs[a].output_id == n_head[x].output_id);
        }
        lemma_filter_all_or_none(n_head, absent_from(s));
    }
    assert(n.filter(absent_from(s)) == n) by {
        assert forall|x: int| 0 <= x < n.len() implies absent_from(s)(#[trigger] n[x]) by {
            let a = choose|a: int| 0 <= a < outs.len() && (#[trigger] outs[a]).output_id == n[x].output_id;
        }
        lemma_filter_all_or_none(n, absent_from(s));
    }
    let c = interrupted(s, index, m, b, i, j);
    assert(c == (s + n_head).filter(live_so_far));
    // What the replay scans in.
    lemma_scan_appends_absent(c, index, m, b.index, outs);
    Seq::filter_distributes_over_add(n_head, n_tail, absent_from(c));
    let again = n_head.filter(absent_from(c));
    lemma_filter_ids(s + n_head, live_so_far);
    assert(n_tail.filter(absent_from(c)) == n_tail) by {
        assert forall|x: int| 0 <= x < n_tail.len() implies absent_from(c)(#[trigger] n_tail[x]) by {
            let id = n_tail[x].output_id;
            let a = choose|a: int| 0 <= a < tail.len() && (#[trigger] tail[a]).output_id == id;
            assert(outs[i + a].output_id == id);
            if has_output(c, id) {
                assert(has_output(s + n_head, id));
                let q = choose|q: int|
                    0 <= q < (s + n_head).len() && (#[trigger] (s + n_head)[q]).output_id == id;
                if q < s.len() {
                    assert(s[q].output_id == id);
                } else {
                    let y = q - s.len();
                    assert(n_head[y].output_id == id);
                    let e = choose|e: int|
                        0 <= e < head.len() && (#[trigger] head[e]).output_id == n_head[y].output_id;
                    assert(outs[e].output_id != outs[i + a].output_id);
                }
            }
        }
        lemma_filter_all_or_none(n_tail, absent_from(c));
    }
    assert(again.filter(live).len() == 0) by {
        lemma_filter_members(n_head, absent_from(c));
        lemma_filter_members(s + n_head, live_so_far);
        assert forall|x: int| 0 <= x < again.len() implies !live(#[trigger] again[x]) by {
            let u = again[x];
            assert(again.contains(u));
            assert(n_head.contains(u));
            let q = choose|q: int| 0 <= q < n_head.len() && n_head[q] == u;
            assert((s + n_head)[s.len() + q] == u);
            assert((s + n_head).contains(u));
            if live_so_far(u) {
                assert(c.contains(u));
                let z = choose|z: int| 0 <= z < c.len() && c[z] == u;
                assert(c[z].output_id == u.output_id);
                assert(false);
            }
            let w = choose|w: int| 0 <= w < images.take(j).len() && images.take(j)[w] == u.key_image;
            assert(images[w] == u.key_image);
        }
        lemma_filter_all_or_none(again, live);
    }
    assert forall|u: UnspentTxOut| #[trigger] live(u) == (live_so_far(u) && live(u)) by {
        if images.take(j).contains(u.key_image) {
            let w = choose|w: int| 0 <= w < images.take(j).len() && images.take(j)[w] == u.key_image;
            assert(images[w] == u.key_image);
        }
    }
    lemma_filter_twice(s + n_head, live_so_far, live, live);
    Seq::filter_distributes_over_add(c, again + n_tail, live);
    Seq::filter_distributes_over_add(again, n_tail, live);
    Seq::filter_distributes_over_add(s + n_head, n_tail, live);
    assert(again.filter(live) + n_tail.filter(live) =~= n_tail.filter(live));
    assert(n == n_head + n_tail);
    assert((s + n_head) + n_tail =~= s + (n_head + n_tail));
}

/// Processing two runs of blocks, one after the other, is processing the
/// first and then the second.
pub proof fn lemma_apply_blocks_concat(
    s: Seq<UnspentTxOut>,
    index: Seq<SubaddressEntry>,
    m: MonitorId,
    x: Seq<BlockView>,
    y: Seq<BlockView>,
)
    ensures
        apply_blocks(s, index, m, x + y) == apply_blocks(apply_blocks(s, index, m, x), index, m, y),
    decreases y.len(),
{
    if y.len() == 0 {
        assert(x + y =~= x);
    } else {
        assert((x + y).drop_last() =~= x + y.drop_last());
        assert((x + y).last() == y.last());
        lemma_apply_blocks_concat(s, index, m, x, y.drop_last());
    }
}

/// Processing a run of one block is processing that block.
proof fn lemma_apply_one_block(
    s: Seq<UnspentTxOut>,
    index: Seq<SubaddressEntry>,
    m: MonitorId,
    b: BlockView,
)
    ensures
        apply_blocks(s, index, m, seq![b]) == apply_block(s, index, m, b),
{
    reveal_with_fuel(apply_blocks, 2);
    assert(seq![b].drop_last() =~= Seq::<BlockView>::empty());
}

/// Processing blocks adds only records of their outputs.
proof fn lemma_apply_blocks_ids(
    s: Seq<UnspentTxOut>,
    index: Seq<SubaddressEntry>,
    m: MonitorId,
    blocks: Seq<BlockView>,
)
    ensures
        forall|id: u64| #[trigger]
            has_output(apply_blocks(s, index, m, blocks), id) ==> has_output(s, id) || (exists|
                b: int,
                a: int,
            |
                0 <= b < blocks.len() && 0 <= a < blocks[b].outputs.len() && (
                #[trigger] blocks[b].outputs[a]).output_id == id),
    decreases blocks.len(),
{
    if blocks.len() > 0 {
        let front = blocks.drop_last();
        let last = blocks.last();
        let t = apply_blocks(s, index, m, front);
        let scanned = scan_outputs(t, index, m, last.index, last.outputs);
        let r = apply_blocks(s, index, m, blocks);
        lemma_apply_blocks_ids(s, index, m, front);
        lemma_scan_ids(t, index, m, last.index, last.outputs);
        lemma_filter_ids(scanned, not_spent_in(last.images()));
        assert forall|id: u64| #[trigger] has_output(r, id) implies has_output(s, id) || (exists|
            b: int,
            a: int,
        |
            0 <= b < blocks.len() && 0 <= a < blocks[b].outputs.len() && (
            #[trigger] blocks[b].outputs[a]).output_id == id) by {
            assert(has_output(scanned, id));
            if has_output(t, id) {
                if !has_output(s, id) {
                    let (b, a) = choose|b: int, a: int|
                        0 <= b < front.len() && 0 <= a < front[b].outputs.len() && (
                        #[trigger] front[b].outputs[a]).output_id == id;
                    assert(blocks[b].outputs[a].output_id == id);
                }
            } else {
                let a = choose|a: int|
                    0 <= a < last.outputs.len() && (#[trigger] last.outputs[a]).output_id == id;
                assert(blocks[blocks.len() - 1].outputs[a].output_id == id);
            }
        }
    }
}

/// A scan of several blocks that crashes anywhere, in the middle of block
/// `b` after `i` of its outputs and `j` of its key images, and is run again
/// from that block on, ends with the store that the uninterrupted scan ends
/// with. This holds where the outputs of the blocks are new to the store.
pub proof fn lemma_sync_replay(
    s: Seq<UnspentTxOut>,
    index: Seq<SubaddressEntry>,
    m: MonitorId,
    blocks: Seq<BlockView>,
    b: int,
    i: int,
    j: int,
)
    requires
        ledger_is_new(s, blocks),
        0 <= b < blocks.len(),
        0 <= i <= blocks[b].outputs.len(),
        0 <= j <= blocks[b].images().len(),
    ensures
        apply_blocks(
            interrupted(apply_blocks(s, index, m, blocks.take(b)), index, m, blocks[b], i, j),
            index,
            m,
            blocks.skip(b),
        ) == apply_blocks(s, index, m, blocks),
{
    let done = blocks.take(b);
    let at = apply_blocks(s, index, m, done);
    let this = blocks[b];
    let rest = blocks.skip(b + 1);
    let crashed = interrupted(at, index, m, this, i, j);
    assert(outputs_are_new(at, this.outputs)) by {
        lemma_apply_blocks_ids(s, index, m, done);
        assert forall|a: int| 0 <= a < this.outputs.len() implies !has_output(
            at,
            (#[trigger] this.outputs[a]).output_id,
        ) by {
            let id = this.outputs[a].output_id;
            assert(blocks[b].outputs[a].output_id == id);
            if has_output(at, id) {
                if !has_output(s, id) {
                    let (b2, a2) = choose|b2: int, a2: int|
                        0 <= b2 < done.len() && 0 <= a2 < done[b2].outputs.len() && (
                        #[trigger] done[b2].outputs[a2]).output_id == id;
                    assert(blocks[b2].outputs[a2].output_id == id);
                }
            }
        }
        assert forall|x: int, y: int| 0 <= x < y < this.outputs.len() implies (
        #[trigger] this.outputs[x]).output_id != (#[trigger] this.outputs[y]).output_id by {
            assert(blocks[b].outputs[x].output_id != blocks[b].outputs[y].output_id);
        }
    }
    lemma_block_replay(at, index, m, this, i, j);
    assert(blocks.skip(b) =~= seq![this] + rest);
    assert(blocks =~= (done + seq![this]) + rest);
    lemma_apply_blocks_concat(crashed, index, m, seq![this], rest);
    lemma_apply_blocks_concat(s, index, m, done + seq![this], rest);
    lemma_apply_blocks_concat(s, index, m, done, seq![this]);
    lemma_apply_one_block(crashed, index, m, this);
    lemma_apply_one_block(at, index, m, this);
}

} // verus!

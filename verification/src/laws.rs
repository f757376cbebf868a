//! What holds of the stores over several operations.

use crate::codec::{
    key_bytes, lemma_key_round_trip, lemma_word_round_trip, monitor_key, subaddress_key,
    utxo_by_subaddress_key, utxo_key, word_bytes,
};
use crate::builder::inputs_unspent;
use crate::keyed::{lemma_filter_all_or_none, lemma_filter_members};
use crate::monitor_store::{
    find_monitor, has_monitor, lemma_cursor_moves_compose, lemma_find_after_cursor,
    monitors_distinct, other_than, with_cursor, MonitorData, MonitorParams,
};
use crate::subaddress_index::SubaddressEntry;
use crate::sync::{apply_block, not_spent_in, scan_outputs, BlockView};
use crate::types::{Key32, MonitorId};
use crate::utxo_store::{has_output, UnspentTxOut};
use vstd::prelude::*;

verus! {

/// A monitor that was registered is in the store, so that registering the
/// same parameters again is refused as existing. Removing it gives back the
/// store as it was before, which does not hold the monitor, so that removing
/// it again is refused as not found.
pub proof fn lemma_register_and_remove(s: Seq<MonitorData>, p: MonitorParams)
    requires
        !has_monitor(s, p.spec_id()),
    ensures
        has_monitor(s.push(p.spec_initial()), p.spec_id()),
        s.push(p.spec_initial()).filter(other_than(p.spec_id())) == s,
        !has_monitor(s.push(p.spec_initial()).filter(other_than(p.spec_id())), p.spec_id()),
{
    let id = p.spec_id();
    let t = s.push(p.spec_initial());
    assert(t[t.len() - 1].spec_id() == id);
    s.lemma_filter_push(p.spec_initial(), other_than(id));
    lemma_filter_all_or_none(s, other_than(id));
}

/// An output that was inserted is in the store, so that inserting an output
/// with the same id again is refused as a duplicate.
pub proof fn lemma_inserted_is_held(s: Seq<UnspentTxOut>, u: UnspentTxOut)
    ensures
        has_output(s.push(u), u.output_id),
{
    assert(s.push(u)[s.len() as int].output_id == u.output_id);
}

/// A cursor that was moved to `next_block` stands there, so that moving it
/// there again is accepted and changes nothing, and moving it to a lower
/// value is refused.
pub proof fn lemma_cursor_stands_where_moved(s: Seq<MonitorData>, id: MonitorId, next_block: u64)
    requires
        monitors_distinct(s),
        has_monitor(s, id),
    ensures
        find_monitor(with_cursor(s, id, next_block), id) matches Some(m) && m.next_block
            == next_block,
        with_cursor(with_cursor(s, id, next_block), id, next_block) == with_cursor(
            s,
            id,
            next_block,
        ),
{
    lemma_find_after_cursor(s, id, next_block);
    lemma_cursor_moves_compose(s, id, next_block, next_block);
}

/// A build whose input a block has spent cannot end signed: once the block
/// with the key image of one of the inputs is processed, the store holds that
/// input no more, which is when `finish` fails the build.
pub proof fn lemma_spent_input_is_not_unspent(
    s: Seq<UnspentTxOut>,
    index: Seq<SubaddressEntry>,
    m: MonitorId,
    b: BlockView,
    inputs: Seq<UnspentTxOut>,
    i: int,
)
    requires
        0 <= i < inputs.len(),
        b.images().contains(inputs[i].key_image),
    ensures
        !inputs_unspent(apply_block(s, index, m, b), inputs),
{
    let scanned = scan_outputs(s, index, m, b.index, b.outputs);
    lemma_filter_members(scanned, not_spent_in(b.images()));
    assert(!not_spent_in(b.images())(inputs[i]));
}

/// Different monitors, subaddresses and outputs have different keys.
pub proof fn lemma_keys_tell_apart(a: MonitorId, b: MonitorId, i: u64, j: u64, k: Key32, l: Key32)
    ensures
        monitor_key(a) == monitor_key(b) ==> a == b,
        subaddress_key(k) == subaddress_key(l) ==> k == l,
        utxo_key(i) == utxo_key(j) ==> i == j,
        utxo_by_subaddress_key(a, i) == utxo_by_subaddress_key(b, j) ==> a == b && i == j,
{
    let empty = Seq::<u8>::empty();
    lemma_key_round_trip(a.account, empty);
    lemma_key_round_trip(b.account, empty);
    lemma_key_round_trip(k, empty);
    lemma_key_round_trip(l, empty);
    lemma_word_round_trip(a.first_subaddress, empty);
    lemma_word_round_trip(b.first_subaddress, empty);
    lemma_word_round_trip(a.num_subaddresses, empty);
    lemma_word_round_trip(b.num_subaddresses, empty);
    lemma_word_round_trip(i, empty);
    lemma_word_round_trip(j, empty);
    assert(monitor_key(a).subrange(1, 33) =~= key_bytes(a.account));
    assert(monitor_key(b).subrange(1, 33) =~= key_bytes(b.account));
    assert(monitor_key(a).subrange(33, 41) =~= word_bytes(a.first_subaddress));
    assert(monitor_key(b).subrange(33, 41) =~= word_bytes(b.first_subaddress));
    assert(monitor_key(a).subrange(41, 49) =~= word_bytes(a.num_subaddresses));
    assert(monitor_key(b).subrange(41, 49) =~= word_bytes(b.num_subaddresses));
    assert(subaddress_key(k).subrange(1, 33) =~= key_bytes(k));
    assert(subaddress_key(l).subrange(1, 33) =~= key_bytes(l));
    assert(utxo_key(i).subrange(1, 9) =~= word_bytes(i));
    assert(utxo_key(j).subrange(1, 9) =~= word_bytes(j));
    assert(utxo_by_subaddress_key(a, i).subrange(0, 49) =~= seq![
        crate::codec::UTXO_BY_SUBADDRESS_TAG,
    ] + monitor_key(a).subrange(1, 49));
    assert(utxo_by_subaddress_key(b, j).subrange(0, 49) =~= seq![
        crate::codec::UTXO_BY_SUBADDRESS_TAG,
    ] + monitor_key(b).subrange(1, 49));
    assert(utxo_by_subaddress_key(a, i).subrange(49, 57) =~= word_bytes(i));
    assert(utxo_by_subaddress_key(b, j).subrange(49, 57) =~= word_bytes(j));
    if utxo_by_subaddress_key(a, i) == utxo_by_subaddress_key(b, j) {
        let ka = utxo_by_subaddress_key(a, i);
        let kb = utxo_by_subaddress_key(b, j);
        assert(ka.subrange(1, 33) =~= key_bytes(a.account));
        assert(kb.subrange(1, 33) =~= key_bytes(b.account));
        assert(ka.subrange(33, 41) =~= word_bytes(a.first_subaddress));
        assert(kb.subrange(33, 41) =~= word_bytes(b.first_subaddress));
        assert(ka.subrange(41, 49) =~= word_bytes(a.num_subaddresses));
        assert(kb.subrange(41, 49) =~= word_bytes(b.num_subaddresses));
    }
}

/// No key of one store is a key of another.
pub proof fn lemma_stores_are_apart(a: MonitorId, i: u64, k: Key32)
    ensures
        monitor_key(a) != subaddress_key(k),
        monitor_key(a) != utxo_key(i),
        monitor_key(a) != utxo_by_subaddress_key(a, i),
        subaddress_key(k) != utxo_key(i),
        subaddress_key(k) != utxo_by_subaddress_key(a, i),
        utxo_key(i) != utxo_by_subaddress_key(a, i),
{
    assert(monitor_key(a)[0] == 1);
    assert(subaddress_key(k)[0] == 2);
    assert(utxo_key(i)[0] == 3);
    assert(utxo_by_subaddress_key(a, i)[0] == 4);
}

} // verus!

//! The store of unspent outputs: one record per output that a monitor owns,
//! found by its global output id or by the subaddress that received it.

use crate::error::Error;
use crate::keyed::{has_key, lemma_filter_keys};
use crate::types::{Key32, MonitorId};
use vstd::prelude::*;

verus! {

/// One output owned by a monitor and not yet seen spent.
#[derive(Clone, Copy, Debug, PartialEq, Eq, Structural)]
pub struct UnspentTxOut {
    /// Position of the output in the ledger.
    pub output_id: u64,
    /// The monitor that owns it.
    pub monitor_id: MonitorId,
    /// The subaddress of the monitor that received it.
    pub subaddress_index: u64,
    /// Its amount.
    pub value: u64,
    /// The nullifier that shows up in the ledger when the output is spent.
    pub key_image: Key32,
    /// The block in which it was found.
    pub block_index: u64,
}

/// Some record of `s` has the output id `id`.
pub open spec fn has_output(s: Seq<UnspentTxOut>, id: u64) -> bool {
    exists|i: int| 0 <= i < s.len() && (#[trigger] s[i]).output_id == id
}

/// No two records of `s` have the same output id.
pub open spec fn ids_distinct(s: Seq<UnspentTxOut>) -> bool {
    forall|i: int, j: int|
        0 <= i < j < s.len() ==> (#[trigger] s[i]).output_id != (#[trigger] s[j]).output_id
}

/// The records of monitor `m`.
pub open spec fn owned_by(m: MonitorId) -> spec_fn(UnspentTxOut) -> bool {
    |u: UnspentTxOut| u.monitor_id == m
}

/// The records of every monitor but `m`.
pub open spec fn not_owned_by(m: MonitorId) -> spec_fn(UnspentTxOut) -> bool {
    |u: UnspentTxOut| u.monitor_id != m
}

/// The records that subaddress `index` of monitor `m` received.
pub open spec fn received_at(m: MonitorId, index: u64) -> spec_fn(UnspentTxOut) -> bool {
    |u: UnspentTxOut| u.monitor_id == m && u.subaddress_index == index
}

/// The records whose key image is `k`.
pub open spec fn spent_by(k: Key32) -> spec_fn(UnspentTxOut) -> bool {
    |u: UnspentTxOut| u.key_image == k
}

/// The records whose key image is not `k`.
pub open spec fn not_spent_by(k: Key32) -> spec_fn(UnspentTxOut) -> bool {
    |u: UnspentTxOut| u.key_image != k
}

/// The records with another output id than `id`.
pub open spec fn other_output_than(id: u64) -> spec_fn(UnspentTxOut) -> bool {
    |u: UnspentTxOut| u.output_id != id
}

/// The sum of the amounts of `s`.
pub open spec fn total_value(s: Seq<UnspentTxOut>) -> nat
    decreases s.len(),
{
    if s.len() == 0 {
        0
    } else {
        total_value(s.drop_last()) + s.last().value as nat
    }
}

/// The sum of the amounts in `v`.
pub fn sum_values(v: &Vec<UnspentTxOut>) -> (sum: u128)
    ensures
        sum == total_value(v@),
{
    let mut sum: u128 = 0;
    let mut i: usize = 0;
    while i < v.len()
        invariant
            i <= v.len(),
            sum == total_value(v@.take(i as int)),
            sum <= i * u64::MAX,
        decreases v.len() - i,
    {
        proof {
            assert(v@.take(i as int + 1).drop_last() =~= v@.take(i as int));
            assert((i + 1) * u64::MAX == i * u64::MAX + u64::MAX) by (nonlinear_arith);
            assert(i * u64::MAX <= usize::MAX * u64::MAX) by (nonlinear_arith)
                requires
                    i <= usize::MAX,
            ;
            assert(usize::MAX * u64::MAX <= u64::MAX * u64::MAX) by (nonlinear_arith)
                requires
                    usize::MAX <= u64::MAX,
            ;
        }
        sum = sum + v[i].value as u128;
        i += 1;
    }
    proof {
        assert(v@.take(i as int) =~= v@);
    }
    sum
}

/// Filtering keeps output ids distinct, and invents no output id.
pub proof fn lemma_filter_ids(s: Seq<UnspentTxOut>, p: spec_fn(UnspentTxOut) -> bool)
    ensures
        ids_distinct(s) ==> ids_distinct(s.filter(p)),
        forall|id: u64| #[trigger] has_output(s.filter(p), id) ==> has_output(s, id),
{
    let key = |u: UnspentTxOut| u.output_id;
    lemma_filter_keys(s, key, p);
    assert forall|id: u64| #[trigger] has_output(s.filter(p), id) implies has_output(s, id) by {
        assert(has_key(s.filter(p), key, id));
    }
}

/// Either half of what `split` tells apart.
enum Selector {
    Monitor(MonitorId),
    Subaddress(MonitorId, u64),
    KeyImage(Key32),
}

impl Selector {
    spec fn chosen(self) -> spec_fn(UnspentTxOut) -> bool {
        match self {
            Selector::Monitor(m) => owned_by(m),
            Selector::Subaddress(m, i) => received_at(m, i),
            Selector::KeyImage(k) => spent_by(k),
        }
    }

    spec fn others(self) -> spec_fn(UnspentTxOut) -> bool {
        match self {
            Selector::Monitor(m) => not_owned_by(m),
            Selector::Subaddress(m, i) => |u: UnspentTxOut| !received_at(m, i)(u),
            Selector::KeyImage(k) => not_spent_by(k),
        }
    }

    fn selects(&self, u: &UnspentTxOut) -> (r: bool)
        ensures
            r == self.chosen()(*u),
            r == !self.others()(*u),
    {
        match self {
            Selector::Monitor(m) => u.monitor_id == *m,
            Selector::Subaddress(m, i) => u.monitor_id == *m && u.subaddress_index == *i,
            Selector::KeyImage(k) => u.key_image == *k,
        }
    }
}

/// Splits `records` into those that `sel` selects and the rest, both in the
/// order in which they stood.
fn split(records: &Vec<UnspentTxOut>, sel: &Selector) -> (r: (Vec<UnspentTxOut>, Vec<UnspentTxOut>))
    ensures
        r.0@ == records@.filter(sel.chosen()),
        r.1@ == records@.filter(sel.others()),
{
    let mut chosen: Vec<UnspentTxOut> = Vec::new();
    let mut others: Vec<UnspentTxOut> = Vec::new();
    let mut i: usize = 0;
    proof {
        reveal(Seq::filter);
        assert(records@.take(0).len() == 0);
    }
    while i < records.len()
        invariant
            i <= records.len(),
            chosen@ == records@.take(i as int).filter(sel.chosen()),
            others@ == records@.take(i as int).filter(sel.others()),
        decreases records.len() - i,
    {
        let u = records[i];
        proof {
            records@.lemma_take_succ_push(i as int);
            records@.take(i as int).lemma_filter_push(u, sel.chosen());
            records@.take(i as int).lemma_filter_push(u, sel.others());
        }
        if sel.selects(&u) {
            chosen.push(u);
        } else {
            others.push(u);
        }
        i += 1;
    }
    proof {
        records@.lemma_take_len();
    }
    (chosen, others)
}

/// The unspent outputs of all monitors.
#[derive(Debug)]
pub struct UtxoStore {
    records: Vec<UnspentTxOut>,
}

impl View for UtxoStore {
    type V = Seq<UnspentTxOut>;

    /// The records, in the order in which they were inserted.
    closed spec fn view(&self) -> Seq<UnspentTxOut> {
        self.records@
    }
}

impl UtxoStore {
    /// What holds of every store: no two records share an output id.
    pub open spec fn wf(&self) -> bool {
        ids_distinct(self@)
    }

    /// A store without records.
    pub fn new() -> (s: UtxoStore)
        ensures
            s.wf(),
            s@ == Seq::<UnspentTxOut>::empty(),
    {
        UtxoStore { records: Vec::new() }
    }

    /// The number of records.
    pub fn len(&self) -> (n: usize)
        ensures
            n == self@.len(),
    {
        self.records.len()
    }

    /// Where the record with output id `id` stands, if there is one.
    fn position(&self, id: u64) -> (r: Option<usize>)
        ensures
            match r {
                Some(i) => i < self@.len() && self@[i as int].output_id == id,
                None => !has_output(self@, id),
            },
    {
        let mut i: usize = 0;
        while i < self.records.len()
            invariant
                i <= self.records.len(),
                forall|j: int| 0 <= j < i ==> (#[trigger] self.records@[j]).output_id != id,
            decreases self.records.len() - i,
        {
            if self.records[i].output_id == id {
                return Some(i);
            }
            i += 1;
        }
        None
    }

    /// Tells whether an output with id `id` is recorded.
    pub fn contains(&self, id: u64) -> (r: bool)
        ensures
            r == has_output(self@, id),
    {
        self.position(id).is_some()
    }

    /// Records `utxo`, unless an output with its id is recorded already: then
    /// the store stays as it is.
    pub fn insert(&mut self, utxo: UnspentTxOut) -> (r: Result<(), Error>)
        requires
            old(self).wf(),
        ensures
            final(self).wf(),
            match r {
                Ok(_) => !has_output(old(self)@, utxo.output_id) && final(self)@ == old(self)@.push(
                    utxo,
                ) && has_output(final(self)@, utxo.output_id),
                Err(e) => e == Error::DuplicateUnspentTxOut && has_output(
                    old(self)@,
                    utxo.output_id,
                ) && final(self)@ == old(self)@,
            },
    {
        if self.position(utxo.output_id).is_some() {
            return Err(Error::DuplicateUnspentTxOut);
        }
        self.records.push(utxo);
        proof {
            assert(self.records@[self.records@.len() - 1].output_id == utxo.output_id);
        }
        Ok(())
    }

    /// The record with output id `id`.
    pub fn get(&self, id: u64) -> (r: Result<UnspentTxOut, Error>)
        ensures
            match r {
                Ok(u) => u.output_id == id && self@.contains(u),
                Err(e) => e == Error::UtxoIdNotFound && !has_output(self@, id),
            },
    {
        match self.position(id) {
            Some(i) => Ok(self.records[i]),
            None => Err(Error::UtxoIdNotFound),
        }
    }

    /// Removes the record with output id `id` and returns it.
    pub fn remove(&mut self, id: u64) -> (r: Result<UnspentTxOut, Error>)
        requires
            old(self).wf(),
        ensures
            final(self).wf(),
            match r {
                Ok(u) => {
                    &&& u.output_id == id
                    &&& old(self)@.contains(u)
                    &&& final(self)@ == old(self)@.filter(other_output_than(id))
                    &&& !has_output(final(self)@, id)
                },
                Err(e) => {
                    &&& e == Error::UtxoIdNotFound
                    &&& !has_output(old(self)@, id)
                    &&& final(self)@ == old(self)@
                },
            },
    {
        let i = match self.position(id) {
            Some(i) => i,
            None => {
                return Err(Error::UtxoIdNotFound);
            },
        };
        let ghost before = self.records@;
        let u = self.records.remove(i);
        proof {
            let after = self.records@;
            assert(before.take(i as int).filter(other_output_than(id)) == before.take(i as int)) by {
                assert forall|j: int| 0 <= j < i implies other_output_than(id)(
                    #[trigger] before.take(i as int)[j],
                ) by {
                    assert(before[j].output_id != before[i as int].output_id);
                }
                crate::keyed::lemma_filter_all_or_none(before.take(i as int), other_output_than(id));
            }
            let tail = before.skip(i as int + 1);
            assert(tail.filter(other_output_than(id)) == tail) by {
                assert forall|j: int| 0 <= j < tail.len() implies other_output_than(id)(
                    #[trigger] tail[j],
                ) by {
                    assert(before[i as int].output_id != before[i + 1 + j].output_id);
                }
                crate::keyed::lemma_filter_all_or_none(tail, other_output_than(id));
            }
            let head = before.take(i as int).push(before[i as int]);
            before.take(i as int).lemma_filter_push(before[i as int], other_output_than(id));
            Seq::filter_distributes_over_add(head, tail, other_output_than(id));
            assert(head + tail =~= before);
            assert(after =~= before.take(i as int) + tail);
            assert(before.contains(u));
            lemma_filter_ids(before, other_output_than(id));
            crate::keyed::lemma_filter_members(before, other_output_than(id));
            if has_output(after, id) {
                let j = choose|j: int| 0 <= j < after.len() && (#[trigger] after[j]).output_id == id;
                assert(after.contains(after[j]));
            }
        }
        Ok(u)
    }

    /// Removes every record whose key image is `key_image` and returns what
    /// was removed. A key image that no record has changes nothing.
    pub fn remove_by_key_image(&mut self, key_image: Key32) -> (removed: Vec<UnspentTxOut>)
        requires
            old(self).wf(),
        ensures
            final(self).wf(),
            final(self)@ == old(self)@.filter(not_spent_by(key_image)),
            removed@ == old(self)@.filter(spent_by(key_image)),
    {
        proof {
            lemma_filter_ids(self.records@, not_spent_by(key_image));
        }
        let (removed, kept) = split(&self.records, &Selector::KeyImage(key_image));
        self.records = kept;
        removed
    }

    /// Removes every record of monitor `id`.
    pub fn remove_all_for_monitor(&mut self, id: MonitorId)
        requires
            old(self).wf(),
        ensures
            final(self).wf(),
            final(self)@ == old(self)@.filter(not_owned_by(id)),
    {
        proof {
            lemma_filter_ids(self.records@, not_owned_by(id));
        }
        let (_, kept) = split(&self.records, &Selector::Monitor(id));
        self.records = kept;
    }

    /// All records, oldest first.
    pub fn list(&self) -> (r: Vec<UnspentTxOut>)
        ensures
            r@ == self@,
    {
        let mut out: Vec<UnspentTxOut> = Vec::new();
        let mut i: usize = 0;
        while i < self.records.len()
            invariant
                i <= self.records.len(),
                out@ == self.records@.take(i as int),
            decreases self.records.len() - i,
        {
            out.push(self.records[i]);
            i += 1;
        }
        out
    }

    /// The records of monitor `id`, oldest first.
    pub fn list_for_monitor(&self, id: MonitorId) -> (r: Vec<UnspentTxOut>)
        requires
            self.wf(),
        ensures
            r@ == self@.filter(owned_by(id)),
            ids_distinct(r@),
    {
        proof {
            lemma_filter_ids(self.records@, owned_by(id));
        }
        let (mine, _) = split(&self.records, &Selector::Monitor(id));
        mine
    }

    /// The records that subaddress `index` of monitor `id` received, oldest
    /// first. That there is none is an error.
    pub fn list_for_subaddress(&self, id: MonitorId, index: u64) -> (r: Result<
        Vec<UnspentTxOut>,
        Error,
    >)
        ensures
            match r {
                Ok(v) => v@ == self@.filter(received_at(id, index)) && v@.len() > 0,
                Err(e) => e == Error::SubaddressIdNotFound && self@.filter(
                    received_at(id, index),
                ).len() == 0,
            },
    {
        let (found, _) = split(&self.records, &Selector::Subaddress(id, index));
        if found.len() == 0 {
            Err(Error::SubaddressIdNotFound)
        } else {
            Ok(found)
        }
    }
}

} // verus!

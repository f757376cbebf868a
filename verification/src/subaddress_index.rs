//! The index of subaddresses: from the spend public key of a subaddress to
//! the monitor that watches it and its index, so that the owner of an output
//! is found in one lookup.

use crate::error::Error;
use crate::keyed::lemma_filter_keys;
use crate::types::{Key32, MonitorId};
use vstd::prelude::*;

verus! {

/// One subaddress of a monitor.
#[derive(Clone, Copy, Debug, PartialEq, Eq, Structural)]
pub struct SubaddressEntry {
    /// The spend public key of the subaddress.
    pub spend_public_key: Key32,
    /// The monitor that watches it.
    pub monitor_id: MonitorId,
    /// Its index in the account.
    pub index: u64,
}

/// Some entry of `s` has the spend public key `k`.
pub open spec fn has_subaddress(s: Seq<SubaddressEntry>, k: Key32) -> bool {
    exists|i: int| 0 <= i < s.len() && (#[trigger] s[i]).spend_public_key == k
}

/// No two entries of `s` have the same spend public key.
pub open spec fn subaddresses_distinct(s: Seq<SubaddressEntry>) -> bool {
    forall|i: int, j: int|
        0 <= i < j < s.len() ==> (#[trigger] s[i]).spend_public_key != (
        #[trigger] s[j]).spend_public_key
}

/// The entry of `s` with the spend public key `k`, if there is one.
pub open spec fn find_subaddress(s: Seq<SubaddressEntry>, k: Key32) -> Option<SubaddressEntry> {
    if has_subaddress(s, k) {
        Some(s[choose|i: int| 0 <= i < s.len() && (#[trigger] s[i]).spend_public_key == k])
    } else {
        None
    }
}

/// The entries of every monitor but `m`.
pub open spec fn not_watched_by(m: MonitorId) -> spec_fn(SubaddressEntry) -> bool {
    |e: SubaddressEntry| e.monitor_id != m
}

/// The entries that `keys` stand for: the key at place `i` is subaddress
/// `first_index + i` of monitor `m`.
pub open spec fn entries_of(keys: Seq<Key32>, m: MonitorId, first_index: u64) -> Seq<
    SubaddressEntry,
> {
    Seq::new(
        keys.len(),
        |i: int|
            SubaddressEntry {
                spend_public_key: keys[i],
                monitor_id: m,
                index: (first_index + i) as u64,
            },
    )
}

/// None of `keys` is in `s`, and none stands twice in `keys`.
pub open spec fn keys_are_new(s: Seq<SubaddressEntry>, keys: Seq<Key32>) -> bool {
    &&& forall|i: int| 0 <= i < keys.len() ==> !has_subaddress(s, #[trigger] keys[i])
    &&& forall|i: int, j: int| 0 <= i < j < keys.len() ==> #[trigger] keys[i] != #[trigger] keys[j]
}

/// The subaddresses of all monitors.
#[derive(Debug)]
pub struct SubaddressIndex {
    entries: Vec<SubaddressEntry>,
}

impl View for SubaddressIndex {
    type V = Seq<SubaddressEntry>;

    /// The entries, in the order in which they were inserted.
    closed spec fn view(&self) -> Seq<SubaddressEntry> {
        self.entries@
    }
}

impl SubaddressIndex {
    /// What holds of every index: no two entries share a spend public key.
    pub open spec fn wf(&self) -> bool {
        subaddresses_distinct(self@)
    }

    /// An index without entries.
    pub fn new() -> (s: SubaddressIndex)
        ensures
            s.wf(),
            s@ == Seq::<SubaddressEntry>::empty(),
    {
        SubaddressIndex { entries: Vec::new() }
    }

    /// The number of entries.
    pub fn len(&self) -> (n: usize)
        ensures
            n == self@.len(),
    {
        self.entries.len()
    }

    /// Where the entry with the spend public key `k` stands, if there is one.
    fn position(&self, k: Key32) -> (r: Option<usize>)
        ensures
            match r {
                Some(i) => i < self@.len() && self@[i as int].spend_public_key == k,
                None => !has_subaddress(self@, k),
            },
    {
        let mut i: usize = 0;
        while i < self.entries.len()
            invariant
                i <= self.entries.len(),
                forall|j: int| 0 <= j < i ==> (#[trigger] self.entries@[j]).spend_public_key != k,
            decreases self.entries.len() - i,
        {
            if self.entries[i].spend_public_key == k {
                return Some(i);
            }
            i += 1;
        }
        None
    }

    /// Enters the subaddress `index` of monitor `monitor_id` under its spend
    /// public key, unless the key is indexed already: then the index stays as
    /// it is.
    pub fn insert(&mut self, spend_public_key: Key32, monitor_id: MonitorId, index: u64) -> (r:
        Result<(), Error>)
        requires
            old(self).wf(),
        ensures
            final(self).wf(),
            match r {
                Ok(_) => !has_subaddress(old(self)@, spend_public_key) && final(self)@ == old(
                    self,
                )@.push(SubaddressEntry { spend_public_key, monitor_id, index }) && has_subaddress(
                    final(self)@,
                    spend_public_key,
                ),
                Err(e) => e == Error::SubaddressSPKIdExists && has_subaddress(
                    old(self)@,
                    spend_public_key,
                ) && final(self)@ == old(self)@,
            },
    {
        if self.position(spend_public_key).is_some() {
            return Err(Error::SubaddressSPKIdExists);
        }
        self.entries.push(SubaddressEntry { spend_public_key, monitor_id, index });
        proof {
            assert(self.entries@[self.entries@.len() - 1].spend_public_key == spend_public_key);
        }
        Ok(())
    }

    /// Enters a run of subaddresses of monitor `monitor_id`, the key at place
    /// `i` of `keys` as subaddress `first_index + i`. Either all are entered or
    /// none: a run whose last index is beyond `u64` is an invalid argument, and
    /// a key that is indexed already or stands twice in `keys` is refused as
    /// existing.
    pub fn insert_all(&mut self, keys: &Vec<Key32>, monitor_id: MonitorId, first_index: u64) -> (r:
        Result<(), Error>)
        requires
            old(self).wf(),
        ensures
            final(self).wf(),
            match r {
                Ok(_) => {
                    &&& first_index + keys@.len() <= u64::MAX + 1
                    &&& keys_are_new(old(self)@, keys@)
                    &&& final(self)@ == old(self)@ + entries_of(keys@, monitor_id, first_index)
                },
                Err(e) => {
                    &&& final(self)@ == old(self)@
                    &&& if first_index + keys@.len() > u64::MAX + 1 {
                        e is InvalidArgument
                    } else {
                        e == Error::SubaddressSPKIdExists && !keys_are_new(old(self)@, keys@)
                    }
                },
            },
    {
        if keys.len() > 0 && first_index > u64::MAX - (keys.len() - 1) as u64 {
            return Err(
                Error::InvalidArgument(
                    "first_index".to_owned(),
                    "the last subaddress index is beyond the largest index".to_owned(),
                ),
            );
        }
        let before = self.entries.len();
        let mut i: usize = 0;
        while i < keys.len()
            invariant
                i <= keys.len(),
                before == old(self)@.len(),
                first_index + keys@.len() <= u64::MAX + 1,
                self.wf(),
                keys_are_new(old(self)@, keys@.take(i as int)),
                self@ == old(self)@ + entries_of(keys@.take(i as int), monitor_id, first_index),
            decreases keys.len() - i,
        {
            let k = keys[i];
            let ghost so_far = self@;
            if self.position(k).is_some() {
                proof {
                    let j = choose|j: int|
                        0 <= j < so_far.len() && (#[trigger] so_far[j]).spend_public_key == k;
                    if j < before {
                        assert(old(self)@[j].spend_public_key == k);
                        assert(has_subaddress(old(self)@, keys@[i as int]));
                    } else {
                        assert(keys@[j - before] == keys@.take(i as int)[j - before]);
                        assert(keys@[j - before] == keys@[i as int]);
                    }
                }
                self.entries.truncate(before);
                assert(self@ =~= old(self)@);
                return Err(Error::SubaddressSPKIdExists);
            }
            self.entries.push(
                SubaddressEntry {
                    spend_public_key: k,
                    monitor_id,
                    index: first_index + (i as u64),
                },
            );
            proof {
                let next = keys@.take(i as int + 1);
                assert(self@ =~= old(self)@ + entries_of(next, monitor_id, first_index));
                assert forall|a: int| 0 <= a < next.len() implies !has_subaddress(
                    old(self)@,
                    #[trigger] next[a],
                ) by {
                    if a < i {
                        assert(next[a] == keys@.take(i as int)[a]);
                    } else {
                        assert forall|b: int| 0 <= b < old(self)@.len() implies (#[trigger] old(
                            self,
                        )@[b]).spend_public_key != k by {
                            assert(so_far[b] == old(self)@[b]);
                        }
                    }
                }
                assert forall|a: int, b: int| 0 <= a < b < next.len() implies #[trigger] next[a]
                    != #[trigger] next[b] by {
                    if b < i {
                        assert(next[a] == keys@.take(i as int)[a]);
                        assert(next[b] == keys@.take(i as int)[b]);
                    } else {
                        assert(so_far[before + a].spend_public_key == next[a]);
                    }
                }
            }
            i += 1;
        }
        proof {
            assert(keys@.take(i as int) =~= keys@);
        }
        Ok(())
    }

    /// All entries, in the order in which they were inserted.
    pub fn list(&self) -> (r: Vec<SubaddressEntry>)
        ensures
            r@ == self@,
    {
        let mut out: Vec<SubaddressEntry> = Vec::new();
        let mut i: usize = 0;
        while i < self.entries.len()
            invariant
                i <= self.entries.len(),
                out@ == self.entries@.take(i as int),
            decreases self.entries.len() - i,
        {
            out.push(self.entries[i]);
            i += 1;
        }
        out
    }

    /// The monitor and the index of the subaddress with the spend public key
    /// `k`, or `None` where the key belongs to no watched subaddress.
    pub fn lookup(&self, k: Key32) -> (r: Option<(MonitorId, u64)>)
        requires
            self.wf(),
        ensures
            r == match find_subaddress(self@, k) {
                Some(e) => Some((e.monitor_id, e.index)),
                None => None,
            },
    {
        match self.position(k) {
            Some(i) => Some((self.entries[i].monitor_id, self.entries[i].index)),
            None => None,
        }
    }

    /// The monitor and the index of the subaddress with the spend public key
    /// `k`, for a key that has to be there: that it is missing is an error.
    pub fn get_index_data(&self, k: Key32) -> (r: Result<(MonitorId, u64), Error>)
        requires
            self.wf(),
        ensures
            match r {
                Ok(found) => find_subaddress(self@, k) matches Some(e) && found == (
                    e.monitor_id,
                    e.index,
                ),
                Err(e) => e == Error::SubaddressSPKNotFound && find_subaddress(self@, k).is_none(),
            },
    {
        match self.lookup(k) {
            Some(found) => Ok(found),
            None => Err(Error::SubaddressSPKNotFound),
        }
    }

    /// Removes every subaddress of monitor `id`.
    pub fn remove_all_for_monitor(&mut self, id: MonitorId)
        requires
            old(self).wf(),
        ensures
            final(self).wf(),
            final(self)@ == old(self)@.filter(not_watched_by(id)),
    {
        let mut kept: Vec<SubaddressEntry> = Vec::new();
        let mut i: usize = 0;
        proof {
            reveal(Seq::filter);
            assert(self.entries@.take(0).len() == 0);
        }
        while i < self.entries.len()
            invariant
                i <= self.entries.len(),
                kept@ == self.entries@.take(i as int).filter(not_watched_by(id)),
            decreases self.entries.len() - i,
        {
            let e = self.entries[i];
            proof {
                self.entries@.lemma_take_succ_push(i as int);
                self.entries@.take(i as int).lemma_filter_push(e, not_watched_by(id));
            }
            if e.monitor_id != id {
                kept.push(e);
            }
            i += 1;
        }
        proof {
            self.entries@.lemma_take_len();
            lemma_filter_keys(
                self.entries@,
                |e: SubaddressEntry| e.spend_public_key,
                not_watched_by(id),
            );
        }
        self.entries = kept;
    }
}

} // verus!

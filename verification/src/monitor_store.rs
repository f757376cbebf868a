//! The store of monitors: the accounts that the engine watches, each with the
//! range of subaddresses it covers and the next block it has to scan.

use crate::error::Error;
use crate::keyed::lemma_filter_keys;
use crate::types::{Key32, MonitorId};
use vstd::prelude::*;

verus! {

/// What a caller gives to have an account watched.
#[derive(Clone, Copy, Debug, PartialEq, Eq, Structural)]
pub struct MonitorParams {
    /// Fingerprint of the account's keys.
    pub account: Key32,
    /// First subaddress to watch.
    pub first_subaddress: u64,
    /// How many subaddresses to watch, from the first on.
    pub num_subaddresses: u64,
    /// First block to scan.
    pub first_block: u64,
}

/// A watched account.
#[derive(Clone, Copy, Debug, PartialEq, Eq, Structural)]
pub struct MonitorData {
    /// Fingerprint of the account's keys.
    pub account: Key32,
    /// First subaddress that is watched.
    pub first_subaddress: u64,
    /// How many subaddresses are watched, from the first on.
    pub num_subaddresses: u64,
    /// First block that is scanned.
    pub first_block: u64,
    /// Next block to scan: all blocks before it, from `first_block` on, have
    /// been scanned.
    pub next_block: u64,
}

impl MonitorParams {
    /// The identifier that a monitor with these parameters gets.
    pub open spec fn spec_id(self) -> MonitorId {
        MonitorId {
            account: self.account,
            first_subaddress: self.first_subaddress,
            num_subaddresses: self.num_subaddresses,
        }
    }

    /// The range of subaddresses is not empty and ends within `u64`.
    pub open spec fn spec_valid(self) -> bool {
        self.num_subaddresses > 0 && self.first_subaddress + self.num_subaddresses - 1 <= u64::MAX
    }

    /// The monitor that registration creates: nothing is scanned yet.
    pub open spec fn spec_initial(self) -> MonitorData {
        MonitorData {
            account: self.account,
            first_subaddress: self.first_subaddress,
            num_subaddresses: self.num_subaddresses,
            first_block: self.first_block,
            next_block: self.first_block,
        }
    }

    /// The identifier that a monitor with these parameters gets.
    pub fn id(&self) -> (id: MonitorId)
        ensures
            id == self.spec_id(),
    {
        MonitorId {
            account: self.account,
            first_subaddress: self.first_subaddress,
            num_subaddresses: self.num_subaddresses,
        }
    }

    /// Tells whether the range of subaddresses is not empty and ends within
    /// `u64`.
    pub fn is_valid(&self) -> (r: bool)
        ensures
            r == self.spec_valid(),
    {
        self.num_subaddresses > 0 && self.first_subaddress <= u64::MAX - (self.num_subaddresses
            - 1)
    }
}

impl MonitorData {
    /// The monitor's identifier.
    pub open spec fn spec_id(self) -> MonitorId {
        MonitorId {
            account: self.account,
            first_subaddress: self.first_subaddress,
            num_subaddresses: self.num_subaddresses,
        }
    }

    /// The range of subaddresses is not empty and ends within `u64`, and the
    /// cursor does not stand before the first block.
    pub open spec fn spec_valid(self) -> bool {
        &&& self.num_subaddresses > 0
        &&& self.first_subaddress + self.num_subaddresses - 1 <= u64::MAX
        &&& self.first_block <= self.next_block
    }

    /// The same monitor with its cursor at `next_block`.
    pub open spec fn spec_with_cursor(self, next_block: u64) -> MonitorData {
        MonitorData {
            account: self.account,
            first_subaddress: self.first_subaddress,
            num_subaddresses: self.num_subaddresses,
            first_block: self.first_block,
            next_block,
        }
    }

    /// Subaddress `index` is one that the monitor watches.
    pub open spec fn spec_watches(self, index: u64) -> bool {
        self.first_subaddress <= index && index - self.first_subaddress < self.num_subaddresses
    }

    /// The monitor's identifier.
    pub fn id(&self) -> (id: MonitorId)
        ensures
            id == self.spec_id(),
    {
        MonitorId {
            account: self.account,
            first_subaddress: self.first_subaddress,
            num_subaddresses: self.num_subaddresses,
        }
    }

    /// Tells whether the range of subaddresses is not empty and ends within
    /// `u64`, and the cursor does not stand before the first block.
    pub fn is_valid(&self) -> (r: bool)
        ensures
            r == self.spec_valid(),
    {
        self.num_subaddresses > 0 && self.first_subaddress <= u64::MAX - (self.num_subaddresses
            - 1) && self.first_block <= self.next_block
    }

    /// Tells whether subaddress `index` is one that the monitor watches.
    pub fn watches(&self, index: u64) -> (r: bool)
        ensures
            r == self.spec_watches(index),
    {
        self.first_subaddress <= index && index - self.first_subaddress < self.num_subaddresses
    }
}

/// Some monitor of `s` has the identifier `id`.
pub open spec fn has_monitor(s: Seq<MonitorData>, id: MonitorId) -> bool {
    exists|i: int| 0 <= i < s.len() && (#[trigger] s[i]).spec_id() == id
}

/// No two monitors of `s` have the same identifier.
pub open spec fn monitors_distinct(s: Seq<MonitorData>) -> bool {
    forall|i: int, j: int|
        0 <= i < j < s.len() ==> (#[trigger] s[i]).spec_id() != (#[trigger] s[j]).spec_id()
}

/// The monitor of `s` with the identifier `id`, if there is one.
pub open spec fn find_monitor(s: Seq<MonitorData>, id: MonitorId) -> Option<MonitorData> {
    if has_monitor(s, id) {
        Some(s[choose|i: int| 0 <= i < s.len() && (#[trigger] s[i]).spec_id() == id])
    } else {
        None
    }
}

/// The monitors of `s`, the one with the identifier `id` having its cursor
/// at `next_block`.
pub open spec fn with_cursor(s: Seq<MonitorData>, id: MonitorId, next_block: u64) -> Seq<
    MonitorData,
> {
    s.map_values(
        |m: MonitorData|
            if m.spec_id() == id {
                m.spec_with_cursor(next_block)
            } else {
                m
            },
    )
}

/// A monitor that is appended to a sequence without its identifier is the
/// one that is found under it.
pub proof fn lemma_find_last(s: Seq<MonitorData>, m: MonitorData)
    requires
        !has_monitor(s, m.spec_id()),
    ensures
        find_monitor(s.push(m), m.spec_id()) == Some(m),
{
    let t = s.push(m);
    assert(t[s.len() as int].spec_id() == m.spec_id());
    let i = choose|i: int| 0 <= i < t.len() && (#[trigger] t[i]).spec_id() == m.spec_id();
    if i < s.len() {
        assert(s[i].spec_id() == m.spec_id());
    }
}

/// Moving the cursor of a monitor gives that monitor with the new cursor,
/// and keeps identifiers distinct.
pub proof fn lemma_find_after_cursor(s: Seq<MonitorData>, id: MonitorId, next_block: u64)
    requires
        monitors_distinct(s),
        has_monitor(s, id),
    ensures
        find_monitor(with_cursor(s, id, next_block), id) == Some(
            find_monitor(s, id).unwrap().spec_with_cursor(next_block),
        ),
        monitors_distinct(with_cursor(s, id, next_block)),
{
    let t = with_cursor(s, id, next_block);
    let i = choose|i: int| 0 <= i < s.len() && (#[trigger] s[i]).spec_id() == id;
    assert(t[i].spec_id() == id);
    let j = choose|j: int| 0 <= j < t.len() && (#[trigger] t[j]).spec_id() == id;
    assert(s[j].spec_id() == id);
    assert(i == j);
    assert forall|a: int, b: int| 0 <= a < b < t.len() implies (#[trigger] t[a]).spec_id() != (
    #[trigger] t[b]).spec_id() by {
        assert(s[a].spec_id() != s[b].spec_id());
    }
}

/// Moving a cursor changes no identifier.
pub proof fn lemma_with_cursor_keeps_ids(s: Seq<MonitorData>, id: MonitorId, next_block: u64)
    ensures
        forall|x: MonitorId| has_monitor(with_cursor(s, id, next_block), x) <==> has_monitor(s, x),
{
    let t = with_cursor(s, id, next_block);
    assert forall|x: MonitorId| has_monitor(t, x) <==> has_monitor(s, x) by {
        if has_monitor(t, x) {
            let i = choose|i: int| 0 <= i < t.len() && (#[trigger] t[i]).spec_id() == x;
            assert(s[i].spec_id() == x);
        }
        if has_monitor(s, x) {
            let i = choose|i: int| 0 <= i < s.len() && (#[trigger] s[i]).spec_id() == x;
            assert(t[i].spec_id() == x);
        }
    }
}

/// Moving a cursor twice leaves it where the second move put it.
pub proof fn lemma_cursor_moves_compose(s: Seq<MonitorData>, id: MonitorId, a: u64, b: u64)
    ensures
        with_cursor(with_cursor(s, id, a), id, b) == with_cursor(s, id, b),
{
    assert(with_cursor(with_cursor(s, id, a), id, b) =~= with_cursor(s, id, b));
}

/// The monitors other than `id`.
pub open spec fn other_than(id: MonitorId) -> spec_fn(MonitorData) -> bool {
    |m: MonitorData| m.spec_id() != id
}

/// The monitors that the engine watches.
#[derive(Debug)]
pub struct MonitorStore {
    monitors: Vec<MonitorData>,
}

impl View for MonitorStore {
    type V = Seq<MonitorData>;

    /// The monitors, in the order in which they were registered.
    closed spec fn view(&self) -> Seq<MonitorData> {
        self.monitors@
    }
}

impl MonitorStore {
    /// What holds of every store: no two monitors share an identifier, and
    /// every monitor is valid: its range of subaddresses is not empty and ends
    /// within `u64`, and its cursor does not stand before its first block.
    pub open spec fn wf(&self) -> bool {
        &&& monitors_distinct(self@)
        &&& forall|i: int| 0 <= i < self@.len() ==> (#[trigger] self@[i]).spec_valid()
    }

    /// A store without monitors.
    pub fn new() -> (s: MonitorStore)
        ensures
            s.wf(),
            s@ == Seq::<MonitorData>::empty(),
    {
        MonitorStore { monitors: Vec::new() }
    }

    /// The number of monitors.
    pub fn len(&self) -> (n: usize)
        ensures
            n == self@.len(),
    {
        self.monitors.len()
    }

    /// Where the monitor with the identifier `id` stands, if there is one.
    fn position(&self, id: MonitorId) -> (r: Option<usize>)
        ensures
            match r {
                Some(i) => i < self@.len() && self@[i as int].spec_id() == id,
                None => !has_monitor(self@, id),
            },
    {
        let mut i: usize = 0;
        while i < self.monitors.len()
            invariant
                i <= self.monitors.len(),
                forall|j: int| 0 <= j < i ==> (#[trigger] self.monitors@[j]).spec_id() != id,
            decreases self.monitors.len() - i,
        {
            if self.monitors[i].id() == id {
                return Some(i);
            }
            i += 1;
        }
        None
    }

    /// Tells whether a monitor with the identifier `id` is registered.
    pub fn contains(&self, id: MonitorId) -> (r: bool)
        ensures
            r == has_monitor(self@, id),
    {
        self.position(id).is_some()
    }

    /// Registers a monitor with the parameters `params` and returns its
    /// identifier. Its cursor starts at its first block. Parameters with an
    /// empty range of subaddresses, or one that ends beyond `u64`, are an
    /// invalid argument; an identifier that is registered already is refused.
    /// A refusal leaves the store as it is.
    pub fn register(&mut self, params: MonitorParams) -> (r: Result<MonitorId, Error>)
        requires
            old(self).wf(),
        ensures
            final(self).wf(),
            match r {
                Ok(id) => {
                    &&& params.spec_valid()
                    &&& id == params.spec_id()
                    &&& !has_monitor(old(self)@, id)
                    &&& final(self)@ == old(self)@.push(params.spec_initial())
                    &&& find_monitor(final(self)@, id) == Some(params.spec_initial())
                },
                Err(e) => {
                    &&& final(self)@ == old(self)@
                    &&& if !params.spec_valid() {
                        e is InvalidArgument
                    } else {
                        e == Error::MonitorIdExists && has_monitor(old(self)@, params.spec_id())
                    }
                },
            },
    {
        if !params.is_valid() {
            return Err(
                Error::InvalidArgument(
                    "num_subaddresses".to_owned(),
                    "the range of subaddresses is empty or too long".to_owned(),
                ),
            );
        }
        let id = params.id();
        if self.position(id).is_some() {
            return Err(Error::MonitorIdExists);
        }
        let data = MonitorData {
            account: params.account,
            first_subaddress: params.first_subaddress,
            num_subaddresses: params.num_subaddresses,
            first_block: params.first_block,
            next_block: params.first_block,
        };
        self.monitors.push(data);
        proof {
            lemma_find_last(old(self)@, data);
        }
        Ok(id)
    }

    /// Enters a monitor as it was stored, with its cursor. A monitor that is
    /// not valid is an invalid argument; an identifier that is registered
    /// already is refused. A refusal leaves the store as it is.
    pub fn restore(&mut self, data: MonitorData) -> (r: Result<(), Error>)
        requires
            old(self).wf(),
        ensures
            final(self).wf(),
            match r {
                Ok(_) => {
                    &&& data.spec_valid()
                    &&& !has_monitor(old(self)@, data.spec_id())
                    &&& final(self)@ == old(self)@.push(data)
                    &&& find_monitor(final(self)@, data.spec_id()) == Some(data)
                },
                Err(e) => {
                    &&& final(self)@ == old(self)@
                    &&& if !data.spec_valid() {
                        e is InvalidArgument
                    } else {
                        e == Error::MonitorIdExists && has_monitor(old(self)@, data.spec_id())
                    }
                },
            },
    {
        if !data.is_valid() {
            return Err(
                Error::InvalidArgument(
                    "monitor".to_owned(),
                    "the range of subaddresses or the cursor is out of bounds".to_owned(),
                ),
            );
        }
        if self.position(data.id()).is_some() {
            return Err(Error::MonitorIdExists);
        }
        self.monitors.push(data);
        proof {
            lemma_find_last(old(self)@, data);
        }
        Ok(())
    }

    /// Removes the monitor with the identifier `id` and returns it.
    pub fn remove(&mut self, id: MonitorId) -> (r: Result<MonitorData, Error>)
        requires
            old(self).wf(),
        ensures
            final(self).wf(),
            match r {
                Ok(m) => {
                    &&& find_monitor(old(self)@, id) == Some(m)
                    &&& final(self)@ == old(self)@.filter(other_than(id))
                    &&& !has_monitor(final(self)@, id)
                },
                Err(e) => {
                    &&& e == Error::MonitorIdNotFound
                    &&& !has_monitor(old(self)@, id)
                    &&& final(self)@ == old(self)@
                },
            },
    {
        let found = match self.position(id) {
            Some(i) => self.monitors[i],
            None => {
                return Err(Error::MonitorIdNotFound);
            },
        };
        let mut kept: Vec<MonitorData> = Vec::new();
        let mut i: usize = 0;
        proof {
            reveal(Seq::filter);
            assert(self.monitors@.take(0).len() == 0);
        }
        while i < self.monitors.len()
            invariant
                i <= self.monitors.len(),
                kept@ == self.monitors@.take(i as int).filter(other_than(id)),
            decreases self.monitors.len() - i,
        {
            let m = self.monitors[i];
            proof {
                self.monitors@.lemma_take_succ_push(i as int);
                self.monitors@.take(i as int).lemma_filter_push(m, other_than(id));
            }
            if m.id() != id {
                kept.push(m);
            }
            i += 1;
        }
        proof {
            let s = self.monitors@;
            let f = s.filter(other_than(id));
            s.lemma_take_len();
            lemma_filter_keys(s, |m: MonitorData| m.spec_id(), other_than(id));
            crate::keyed::lemma_filter_members(s, other_than(id));
            assert forall|j: int| 0 <= j < f.len() implies (#[trigger] f[j]).spec_valid()
                && f[j].spec_id() != id by {
                assert(f.contains(f[j]));
                assert(s.contains(f[j]));
            }
        }
        self.monitors = kept;
        Ok(found)
    }

    /// The monitor with the identifier `id`.
    pub fn get(&self, id: MonitorId) -> (r: Result<MonitorData, Error>)
        requires
            self.wf(),
        ensures
            match r {
                Ok(m) => find_monitor(self@, id) == Some(m) && m.spec_valid(),
                Err(e) => e == Error::MonitorIdNotFound && find_monitor(self@, id).is_none(),
            },
    {
        match self.position(id) {
            Some(i) => Ok(self.monitors[i]),
            None => Err(Error::MonitorIdNotFound),
        }
    }

    /// All monitors, in the order in which they were registered.
    pub fn list(&self) -> (r: Vec<MonitorData>)
        ensures
            r@ == self@,
    {
        let mut out: Vec<MonitorData> = Vec::new();
        let mut i: usize = 0;
        while i < self.monitors.len()
            invariant
                i <= self.monitors.len(),
                out@ == self.monitors@.take(i as int),
            decreases self.monitors.len() - i,
        {
            out.push(self.monitors[i]);
            i += 1;
        }
        out
    }

    /// Moves the cursor of the monitor `id` to `next_block`. A cursor never
    /// moves back: a value below the cursor is refused with
    /// `BlockIndexTooSmall`, which carries the value and the bound it fell
    /// under, the monitor's first block if it is below that, else the cursor.
    /// A refusal leaves the store as it is.
    pub fn advance_cursor(&mut self, id: MonitorId, next_block: u64) -> (r: Result<(), Error>)
        requires
            old(self).wf(),
        ensures
            final(self).wf(),
            match r {
                Ok(_) => {
                    &&& find_monitor(old(self)@, id) matches Some(m) && m.next_block <= next_block
                        && find_monitor(final(self)@, id) == Some(m.spec_with_cursor(next_block))
                    &&& final(self)@ == with_cursor(old(self)@, id, next_block)
                },
                Err(e) => {
                    &&& final(self)@ == old(self)@
                    &&& match find_monitor(old(self)@, id) {
                        None => e == Error::MonitorIdNotFound,
                        Some(m) => next_block < m.next_block && e == Error::BlockIndexTooSmall(
                            next_block,
                            if next_block < m.first_block {
                                m.first_block
                            } else {
                                m.next_block
                            },
                        ),
                    }
                },
            },
    {
        let i = match self.position(id) {
            Some(i) => i,
            None => {
                return Err(Error::MonitorIdNotFound);
            },
        };
        let m = self.monitors[i];
        if next_block < m.first_block {
            return Err(Error::BlockIndexTooSmall(next_block, m.first_block));
        }
        if next_block < m.next_block {
            return Err(Error::BlockIndexTooSmall(next_block, m.next_block));
        }
        let moved = MonitorData {
            account: m.account,
            first_subaddress: m.first_subaddress,
            num_subaddresses: m.num_subaddresses,
            first_block: m.first_block,
            next_block,
        };
        self.monitors.set(i, moved);
        proof {
            assert(final(self)@ =~= with_cursor(old(self)@, id, next_block));
            lemma_find_after_cursor(old(self)@, id, next_block);
        }
        Ok(())
    }
}

} // verus!

//! The engine's state: the three stores, and the operations that touch more
//! than one of them.

use crate::error::Error;
use crate::keyed::lemma_filter_members;
use crate::monitor_store::{
    find_monitor, has_monitor, monitors_distinct, other_than, MonitorData, MonitorParams,
    MonitorStore,
};
use crate::subaddress_index::{
    entries_of, keys_are_new, not_watched_by, subaddresses_distinct, SubaddressEntry,
    SubaddressIndex,
};
use crate::types::{Key32, MonitorId};
use crate::utxo_store::{
    ids_distinct, not_owned_by, owned_by, sum_values, total_value, UnspentTxOut, UtxoStore,
};
use vstd::prelude::*;

verus! {

/// Every subaddress of `subaddresses` and every output of `utxos` belongs to
/// a monitor of `monitors`.
pub open spec fn references_hold(
    monitors: Seq<MonitorData>,
    subaddresses: Seq<SubaddressEntry>,
    utxos: Seq<UnspentTxOut>,
) -> bool {
    &&& forall|i: int|
        0 <= i < subaddresses.len() ==> has_monitor(monitors, (#[trigger] subaddresses[i]).monitor_id)
    &&& forall|i: int| 0 <= i < utxos.len() ==> has_monitor(monitors, (#[trigger] utxos[i]).monitor_id)
}

/// Every monitor of `monitors` is valid.
pub open spec fn monitors_valid(monitors: Seq<MonitorData>) -> bool {
    forall|i: int| 0 <= i < monitors.len() ==> (#[trigger] monitors[i]).spec_valid()
}

/// The monitors, their subaddresses and their unspent outputs.
#[derive(Debug)]
pub struct Database {
    pub monitors: MonitorStore,
    pub subaddresses: SubaddressIndex,
    pub utxos: UtxoStore,
}

impl Database {
    /// What holds of every database: each store is well formed, and every
    /// subaddress and every output belongs to a registered monitor.
    pub open spec fn wf(&self) -> bool {
        &&& self.monitors.wf()
        &&& self.subaddresses.wf()
        &&& self.utxos.wf()
        &&& references_hold(self.monitors@, self.subaddresses@, self.utxos@)
    }

    /// A database without monitors.
    pub fn new() -> (db: Database)
        ensures
            db.wf(),
            db.monitors@.len() == 0,
            db.subaddresses@.len() == 0,
            db.utxos@.len() == 0,
    {
        Database {
            monitors: MonitorStore::new(),
            subaddresses: SubaddressIndex::new(),
            utxos: UtxoStore::new(),
        }
    }

    /// Builds the database from the records that the persistent store holds.
    /// The records must be what a database can hold: checked are, in this
    /// order, that every monitor is valid (else an invalid argument), that no
    /// two monitors share an identifier, no two subaddresses a spend public
    /// key and no two outputs an output id (else the error of a second
    /// insertion), and that every subaddress and every output belongs to one
    /// of the monitors (else the monitor is not found).
    pub fn restore(
        monitors: &Vec<MonitorData>,
        subaddresses: &Vec<SubaddressEntry>,
        utxos: &Vec<UnspentTxOut>,
    ) -> (r: Result<Database, Error>)
        ensures
            match r {
                Ok(db) => {
                    &&& db.wf()
                    &&& db.monitors@ == monitors@
                    &&& db.subaddresses@ == subaddresses@
                    &&& db.utxos@ == utxos@
                    &&& monitors_valid(monitors@)
                },
                Err(e) => if !monitors_valid(monitors@) {
                    e is InvalidArgument
                } else if !monitors_distinct(monitors@) {
                    e == Error::MonitorIdExists
                } else if !subaddresses_distinct(subaddresses@) {
                    e == Error::SubaddressSPKIdExists
                } else if !ids_distinct(utxos@) {
                    e == Error::DuplicateUnspentTxOut
                } else {
                    e == Error::MonitorIdNotFound && !references_hold(
                        monitors@,
                        subaddresses@,
                        utxos@,
                    )
                },
            },
    {
        let mut i: usize = 0;
        while i < monitors.len()
            invariant
                i <= monitors.len(),
                monitors_valid(monitors@.take(i as int)),
            decreases monitors.len() - i,
        {
            if !monitors[i].is_valid() {
                proof {
                    assert(!monitors@[i as int].spec_valid());
                }
                return Err(
                    Error::InvalidArgument(
                        "monitor".to_owned(),
                        "the range of subaddresses or the cursor is out of bounds".to_owned(),
                    ),
                );
            }
            proof {
                assert forall|j: int| 0 <= j < i + 1 implies (#[trigger] monitors@.take(
                    i as int + 1,
                )[j]).spec_valid() by {
                    if j < i {
                        assert(monitors@.take(i as int)[j].spec_valid());
                    }
                }
            }
            i += 1;
        }
        proof {
            assert(monitors@.take(i as int) =~= monitors@);
        }
        let mut db = Database::new();
        proof {
            assert(db.monitors@ =~= monitors@.take(0));
            assert(db.subaddresses@ =~= subaddresses@.take(0));
            assert(db.utxos@ =~= utxos@.take(0));
        }
        let mut i: usize = 0;
        while i < monitors.len()
            invariant
                i <= monitors.len(),
                monitors_valid(monitors@),
                db.wf(),
                db.monitors@ == monitors@.take(i as int),
                db.subaddresses@ == subaddresses@.take(0),
                db.utxos@ == utxos@.take(0),
            decreases monitors.len() - i,
        {
            match db.monitors.restore(monitors[i]) {
                Ok(_) => {},
                Err(e) => {
                    proof {
                        let held = monitors@.take(i as int);
                        let id = monitors@[i as int].spec_id();
                        let j = choose|j: int| 0 <= j < held.len() && (#[trigger] held[j]).spec_id() == id;
                        assert(monitors@[j].spec_id() == monitors@[i as int].spec_id());
                    }
                    return Err(e);
                },
            }
            proof {
                assert(db.monitors@ =~= monitors@.take(i as int + 1));
            }
            i += 1;
        }
        proof {
            assert(monitors@.take(i as int) =~= monitors@);
        }
        let mut i: usize = 0;
        while i < subaddresses.len()
            invariant
                i <= subaddresses.len(),
                monitors_valid(monitors@),
                db.monitors.wf(),
                db.utxos.wf(),
                db.subaddresses.wf(),
                db.monitors@ == monitors@,
                db.subaddresses@ == subaddresses@.take(i as int),
                db.utxos@ == utxos@.take(0),
            decreases subaddresses.len() - i,
        {
            let e = subaddresses[i];
            match db.subaddresses.insert(e.spend_public_key, e.monitor_id, e.index) {
                Ok(_) => {},
                Err(error) => {
                    proof {
                        let held = subaddresses@.take(i as int);
                        let j = choose|j: int|
                            0 <= j < held.len() && (#[trigger] held[j]).spend_public_key
                                == e.spend_public_key;
                        assert(subaddresses@[j].spend_public_key
                            == subaddresses@[i as int].spend_public_key);
                    }
                    return Err(error);
                },
            }
            proof {
                assert(db.subaddresses@ =~= subaddresses@.take(i as int + 1));
            }
            i += 1;
        }
        proof {
            assert(subaddresses@.take(i as int) =~= subaddresses@);
        }
        let mut i: usize = 0;
        while i < utxos.len()
            invariant
                i <= utxos.len(),
                monitors_valid(monitors@),
                db.monitors.wf(),
                db.utxos.wf(),
                db.subaddresses.wf(),
                db.monitors@ == monitors@,
                db.subaddresses@ == subaddresses@,
                db.utxos@ == utxos@.take(i as int),
            decreases utxos.len() - i,
        {
            match db.utxos.insert(utxos[i]) {
                Ok(_) => {},
                Err(error) => {
                    proof {
                        let held = utxos@.take(i as int);
                        let j = choose|j: int|
                            0 <= j < held.len() && (#[trigger] held[j]).output_id
                                == utxos@[i as int].output_id;
                        assert(utxos@[j].output_id == utxos@[i as int].output_id);
                    }
                    return Err(error);
                },
            }
            proof {
                assert(db.utxos@ =~= utxos@.take(i as int + 1));
            }
            i += 1;
        }
        proof {
            assert(utxos@.take(i as int) =~= utxos@);
        }
        let mut i: usize = 0;
        while i < subaddresses.len()
            invariant
                i <= subaddresses.len(),
                monitors_valid(monitors@),
                db.monitors.wf(),
                db.utxos.wf(),
                db.subaddresses.wf(),
                db.monitors@ == monitors@,
                db.subaddresses@ == subaddresses@,
                db.utxos@ == utxos@,
                forall|j: int|
                    0 <= j < i ==> has_monitor(monitors@, (#[trigger] subaddresses@[j]).monitor_id),
            decreases subaddresses.len() - i,
        {
            if !db.monitors.contains(subaddresses[i].monitor_id) {
                return Err(Error::MonitorIdNotFound);
            }
            i += 1;
        }
        let mut i: usize = 0;
        while i < utxos.len()
            invariant
                i <= utxos.len(),
                monitors_valid(monitors@),
                db.monitors.wf(),
                db.utxos.wf(),
                db.subaddresses.wf(),
                db.monitors@ == monitors@,
                db.subaddresses@ == subaddresses@,
                db.utxos@ == utxos@,
                forall|j: int|
                    0 <= j < subaddresses@.len() ==> has_monitor(
                        monitors@,
                        (#[trigger] subaddresses@[j]).monitor_id,
                    ),
                forall|j: int| 0 <= j < i ==> has_monitor(monitors@, (#[trigger] utxos@[j]).monitor_id),
            decreases utxos.len() - i,
        {
            if !db.monitors.contains(utxos[i].monitor_id) {
                return Err(Error::MonitorIdNotFound);
            }
            i += 1;
        }
        Ok(db)
    }

    /// Registers a monitor together with the spend public keys of its
    /// subaddresses, `spend_keys[i]` being that of subaddress
    /// `first_subaddress + i`. Either the monitor and all its subaddresses are
    /// entered, or nothing changes. Refused are, in this order: parameters with
    /// an empty or overlong range, or a number of keys other than that of the
    /// subaddresses (an invalid argument); an identifier that is registered; a
    /// key that is indexed already or given twice.
    pub fn add_monitor(&mut self, params: MonitorParams, spend_keys: &Vec<Key32>) -> (r: Result<
        MonitorId,
        Error,
    >)
        requires
            old(self).wf(),
        ensures
            final(self).wf(),
            final(self).utxos@ == old(self).utxos@,
            match r {
                Ok(id) => {
                    &&& id == params.spec_id()
                    &&& params.spec_valid()
                    &&& spend_keys@.len() == params.num_subaddresses
                    &&& !has_monitor(old(self).monitors@, id)
                    &&& keys_are_new(old(self).subaddresses@, spend_keys@)
                    &&& final(self).monitors@ == old(self).monitors@.push(params.spec_initial())
                    &&& find_monitor(final(self).monitors@, id) == Some(params.spec_initial())
                    &&& final(self).subaddresses@ == old(self).subaddresses@ + entries_of(
                        spend_keys@,
                        id,
                        params.first_subaddress,
                    )
                },
                Err(e) => {
                    &&& final(self).monitors@ == old(self).monitors@
                    &&& final(self).subaddresses@ == old(self).subaddresses@
                    &&& if !params.spec_valid() || spend_keys@.len() != params.num_subaddresses {
                        e is InvalidArgument
                    } else if has_monitor(old(self).monitors@, params.spec_id()) {
                        e == Error::MonitorIdExists
                    } else {
                        e == Error::SubaddressSPKIdExists && !keys_are_new(
                            old(self).subaddresses@,
                            spend_keys@,
                        )
                    }
                },
            },
    {
        if !params.is_valid() {
            return Err(
                Error::InvalidArgument(
                    "num_subaddresses".to_owned(),
                    "the range of subaddresses is empty or too long".to_owned(),
                ),
            );
        }
        if spend_keys.len() as u64 != params.num_subaddresses {
            return Err(
                Error::InvalidArgument(
                    "spend_keys".to_owned(),
                    "one spend public key is needed for each subaddress".to_owned(),
                ),
            );
        }
        let id = params.id();
        if self.monitors.contains(id) {
            return Err(Error::MonitorIdExists);
        }
        match self.subaddresses.insert_all(spend_keys, id, params.first_subaddress) {
            Err(e) => {
                return Err(e);
            },
            Ok(_) => {},
        }
        let registered = self.monitors.register(params);
        proof {
            let monitors = final(self).monitors@;
            assert(monitors[monitors.len() - 1].spec_id() == id);
            assert forall|x: MonitorId| has_monitor(old(self).monitors@, x) implies has_monitor(
                monitors,
                x,
            ) by {
                let i = choose|i: int|
                    0 <= i < old(self).monitors@.len() && (#[trigger] old(self).monitors@[i]).spec_id()
                        == x;
                assert(monitors[i].spec_id() == x);
            }
            assert forall|i: int| 0 <= i < final(self).subaddresses@.len() implies has_monitor(
                monitors,
                (#[trigger] final(self).subaddresses@[i]).monitor_id,
            ) by {
                if i < old(self).subaddresses@.len() {
                    assert(final(self).subaddresses@[i] == old(self).subaddresses@[i]);
                }
            }
            assert forall|i: int| 0 <= i < final(self).utxos@.len() implies has_monitor(
                monitors,
                (#[trigger] final(self).utxos@[i]).monitor_id,
            ) by {
                assert(has_monitor(old(self).monitors@, old(self).utxos@[i].monitor_id));
            }
        }
        registered
    }

    /// Removes the monitor `id` with all its subaddresses and all its unspent
    /// outputs.
    pub fn remove_monitor(&mut self, id: MonitorId) -> (r: Result<(), Error>)
        requires
            old(self).wf(),
        ensures
            final(self).wf(),
            match r {
                Ok(_) => {
                    &&& has_monitor(old(self).monitors@, id)
                    &&& !has_monitor(final(self).monitors@, id)
                    &&& final(self).monitors@ == old(self).monitors@.filter(other_than(id))
                    &&& final(self).subaddresses@ == old(self).subaddresses@.filter(
                        not_watched_by(id),
                    )
                    &&& final(self).utxos@ == old(self).utxos@.filter(not_owned_by(id))
                },
                Err(e) => {
                    &&& e == Error::MonitorIdNotFound
                    &&& !has_monitor(old(self).monitors@, id)
                    &&& final(self).monitors@ == old(self).monitors@
                    &&& final(self).subaddresses@ == old(self).subaddresses@
                    &&& final(self).utxos@ == old(self).utxos@
                },
            },
    {
        match self.monitors.remove(id) {
            Err(e) => {
                return Err(e);
            },
            Ok(_) => {},
        }
        self.subaddresses.remove_all_for_monitor(id);
        self.utxos.remove_all_for_monitor(id);
        proof {
            let m0 = old(self).monitors@;
            let m1 = final(self).monitors@;
            let s1 = final(self).subaddresses@;
            let u1 = final(self).utxos@;
            lemma_filter_members(m0, other_than(id));
            lemma_filter_members(old(self).subaddresses@, not_watched_by(id));
            lemma_filter_members(old(self).utxos@, not_owned_by(id));
            assert forall|x: MonitorId| x != id && has_monitor(m0, x) implies has_monitor(m1, x) by {
                let i = choose|i: int| 0 <= i < m0.len() && (#[trigger] m0[i]).spec_id() == x;
                assert(m0.contains(m0[i]));
                assert(m1.contains(m0[i]));
                let j = choose|j: int| 0 <= j < m1.len() && m1[j] == m0[i];
                assert(m1[j].spec_id() == x);
            }
            assert forall|i: int| 0 <= i < s1.len() implies has_monitor(
                m1,
                (#[trigger] s1[i]).monitor_id,
            ) by {
                assert(s1.contains(s1[i]));
                let e = s1[i];
                assert(old(self).subaddresses@.contains(e));
                let j = choose|j: int|
                    0 <= j < old(self).subaddresses@.len() && old(self).subaddresses@[j] == e;
                assert(has_monitor(m0, old(self).subaddresses@[j].monitor_id));
            }
            assert forall|i: int| 0 <= i < u1.len() implies has_monitor(
                m1,
                (#[trigger] u1[i]).monitor_id,
            ) by {
                assert(u1.contains(u1[i]));
                let u = u1[i];
                assert(old(self).utxos@.contains(u));
                let j = choose|j: int| 0 <= j < old(self).utxos@.len() && old(self).utxos@[j] == u;
                assert(has_monitor(m0, old(self).utxos@[j].monitor_id));
            }
        }
        Ok(())
    }

    /// The sum of the unspent outputs of the monitor `id`.
    pub fn balance(&self, id: MonitorId) -> (r: Result<u128, Error>)
        requires
            self.wf(),
        ensures
            match r {
                Ok(sum) => has_monitor(self.monitors@, id) && sum == total_value(
                    self.utxos@.filter(owned_by(id)),
                ),
                Err(e) => e == Error::MonitorIdNotFound && !has_monitor(self.monitors@, id),
            },
    {
        if !self.monitors.contains(id) {
            return Err(Error::MonitorIdNotFound);
        }
        let mine = self.utxos.list_for_monitor(id);
        Ok(sum_values(&mine))
    }
}

} // verus!

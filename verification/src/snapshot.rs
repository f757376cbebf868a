//! The database as the records that the persistent store holds: every
//! monitor, subaddress and unspent output as a key and a value, and the
//! database made again from them.

use crate::codec::{
    decode_monitor, decode_subaddress, decode_utxo, encode_monitor, encode_subaddress, encode_utxo,
    lemma_key_round_trip, monitor_key, monitor_value, subaddress_key, subaddress_value, utxo_key,
    utxo_value, MONITOR_TAG, SUBADDRESS_TAG, UTXO_TAG,
};
use crate::database::{monitors_valid, references_hold, Database};
use crate::error::Error;
use crate::monitor_store::{monitors_distinct, MonitorData};
use crate::subaddress_index::{subaddresses_distinct, SubaddressEntry};
use crate::utxo_store::{ids_distinct, UnspentTxOut};
use vstd::prelude::*;

verus! {

/// One record of the persistent store.
#[derive(Clone, Copy, Debug, PartialEq, Eq, Structural)]
pub enum Record {
    Monitor(MonitorData),
    Subaddress(SubaddressEntry),
    Utxo(UnspentTxOut),
}

impl Record {
    /// The key under which the record is persisted.
    pub open spec fn spec_key(self) -> Seq<u8> {
        match self {
            Record::Monitor(m) => monitor_key(m.spec_id()),
            Record::Subaddress(e) => subaddress_key(e.spend_public_key),
            Record::Utxo(u) => utxo_key(u.output_id),
        }
    }

    /// The value that is persisted under the record's key.
    pub open spec fn spec_value(self) -> Seq<u8> {
        match self {
            Record::Monitor(m) => monitor_value(m),
            Record::Subaddress(e) => subaddress_value(e),
            Record::Utxo(u) => utxo_value(u),
        }
    }

    /// The key and the value under which the record is persisted.
    pub fn encode(&self) -> (r: (Vec<u8>, Vec<u8>))
        ensures
            r.0@ == self.spec_key(),
            r.1@ == self.spec_value(),
    {
        match self {
            Record::Monitor(m) => encode_monitor(m),
            Record::Subaddress(e) => encode_subaddress(e),
            Record::Utxo(u) => encode_utxo(u),
        }
    }

    /// The record that is persisted under `key` with `value`. The first byte
    /// of the key tells the store. A key of no store, or one that is
    /// malformed, is a key deserialization error; a malformed value is a
    /// deserialization error.
    pub fn decode(key: &Vec<u8>, value: &Vec<u8>) -> (r: Result<Record, Error>)
        ensures
            match r {
                Ok(record) => record.spec_key() == key@ && record.spec_value() == value@,
                Err(e) => {
                    &&& e == Error::KeyDeserializationError || e is Deserialization
                    &&& forall|record: Record|
                        !(record.spec_key() == key@ && record.spec_value() == value@)
                },
            },
    {
        proof {
            assert forall|record: Record| #![auto] record.spec_key().len() > 0 && record.spec_key()[0]
                == match record {
                Record::Monitor(_) => MONITOR_TAG,
                Record::Subaddress(_) => SUBADDRESS_TAG,
                Record::Utxo(_) => UTXO_TAG,
            } by {}
            assert forall|record: Record| #![auto] record.spec_value().len() == match record {
                Record::Monitor(_) => 16int,
                Record::Subaddress(_) => 56int,
                Record::Utxo(_) => 104int,
            } by {
                match record {
                    Record::Monitor(_) => {},
                    Record::Subaddress(e) => {
                        lemma_key_round_trip(e.monitor_id.account, Seq::empty());
                    },
                    Record::Utxo(u) => {
                        lemma_key_round_trip(u.monitor_id.account, Seq::empty());
                        lemma_key_round_trip(u.key_image, Seq::empty());
                    },
                }
            }
        }
        if key.len() == 0 {
            return Err(Error::KeyDeserializationError);
        }
        let tag = key[0];
        if tag == MONITOR_TAG {
            match decode_monitor(key, value) {
                Ok(m) => Ok(Record::Monitor(m)),
                Err(e) => Err(e),
            }
        } else if tag == SUBADDRESS_TAG {
            match decode_subaddress(key, value) {
                Ok(e) => Ok(Record::Subaddress(e)),
                Err(e) => Err(e),
            }
        } else if tag == UTXO_TAG {
            match decode_utxo(key, value) {
                Ok(u) => Ok(Record::Utxo(u)),
                Err(e) => Err(e),
            }
        } else {
            Err(Error::KeyDeserializationError)
        }
    }
}

/// The monitors among `records`, in their order.
pub open spec fn monitors_of(records: Seq<Record>) -> Seq<MonitorData>
    decreases records.len(),
{
    if records.len() == 0 {
        Seq::empty()
    } else {
        let front = monitors_of(records.drop_last());
        match records.last() {
            Record::Monitor(m) => front.push(m),
            _ => front,
        }
    }
}

/// The subaddresses among `records`, in their order.
pub open spec fn subaddresses_of(records: Seq<Record>) -> Seq<SubaddressEntry>
    decreases records.len(),
{
    if records.len() == 0 {
        Seq::empty()
    } else {
        let front = subaddresses_of(records.drop_last());
        match records.last() {
            Record::Subaddress(e) => front.push(e),
            _ => front,
        }
    }
}

/// The unspent outputs among `records`, in their order.
pub open spec fn utxos_of(records: Seq<Record>) -> Seq<UnspentTxOut>
    decreases records.len(),
{
    if records.len() == 0 {
        Seq::empty()
    } else {
        let front = utxos_of(records.drop_last());
        match records.last() {
            Record::Utxo(u) => front.push(u),
            _ => front,
        }
    }
}

impl Database {
    /// All records of the database: its monitors, then its subaddresses, then
    /// its unspent outputs, each in the order of its store.
    pub fn records(&self) -> (r: Vec<Record>)
        ensures
            monitors_of(r@) == self.monitors@,
            subaddresses_of(r@) == self.subaddresses@,
            utxos_of(r@) == self.utxos@,
            r@.len() == self.monitors@.len() + self.subaddresses@.len() + self.utxos@.len(),
    {
        let monitors = self.monitors.list();
        let subaddresses = self.subaddresses.list();
        let utxos = self.utxos.list();
        let mut out: Vec<Record> = Vec::new();
        let mut i: usize = 0;
        while i < monitors.len()
            invariant
                i <= monitors.len(),
                out@.len() == i,
                monitors_of(out@) == monitors@.take(i as int),
                subaddresses_of(out@) == Seq::<SubaddressEntry>::empty(),
                utxos_of(out@) == Seq::<UnspentTxOut>::empty(),
            decreases monitors.len() - i,
        {
            let ghost before = out@;
            out.push(Record::Monitor(monitors[i]));
            proof {
                assert(out@.drop_last() =~= before);
                assert(monitors@.take(i as int + 1) =~= monitors@.take(i as int).push(
                    monitors@[i as int],
                ));
            }
            i += 1;
        }
        proof {
            assert(monitors@.take(i as int) =~= monitors@);
        }
        let mut i: usize = 0;
        while i < subaddresses.len()
            invariant
                i <= subaddresses.len(),
                out@.len() == monitors@.len() + i,
                monitors_of(out@) == monitors@,
                subaddresses_of(out@) == subaddresses@.take(i as int),
                utxos_of(out@) == Seq::<UnspentTxOut>::empty(),
            decreases subaddresses.len() - i,
        {
            let ghost before = out@;
            out.push(Record::Subaddress(subaddresses[i]));
            proof {
                assert(out@.drop_last() =~= before);
                assert(subaddresses@.take(i as int + 1) =~= subaddresses@.take(i as int).push(
                    subaddresses@[i as int],
                ));
            }
            i += 1;
        }
        proof {
            assert(subaddresses@.take(i as int) =~= subaddresses@);
        }
        let mut i: usize = 0;
        while i < utxos.len()
            invariant
                i <= utxos.len(),
                out@.len() == monitors@.len() + subaddresses@.len() + i,
                monitors_of(out@) == monitors@,
                subaddresses_of(out@) == subaddresses@,
                utxos_of(out@) == utxos@.take(i as int),
            decreases utxos.len() - i,
        {
            let ghost before = out@;
            out.push(Record::Utxo(utxos[i]));
            proof {
                assert(out@.drop_last() =~= before);
                assert(utxos@.take(i as int + 1) =~= utxos@.take(i as int).push(utxos@[i as int]));
            }
            i += 1;
        }
        proof {
            assert(utxos@.take(i as int) =~= utxos@);
        }
        out
    }

    /// Builds the database from records of the persistent store, in whatever
    /// order the store hands them out: the monitors, subaddresses and outputs
    /// among them are entered in the order in which they come. The records
    /// are checked as `restore` checks them.
    pub fn from_records(records: &Vec<Record>) -> (r: Result<Database, Error>)
        ensures
            match r {
                Ok(db) => {
                    &&& db.wf()
                    &&& db.monitors@ == monitors_of(records@)
                    &&& db.subaddresses@ == subaddresses_of(records@)
                    &&& db.utxos@ == utxos_of(records@)
                },
                Err(e) => if !monitors_valid(monitors_of(records@)) {
                    e is InvalidArgument
                } else if !monitors_distinct(monitors_of(records@)) {
                    e == Error::MonitorIdExists
                } else if !subaddresses_distinct(subaddresses_of(records@)) {
                    e == Error::SubaddressSPKIdExists
                } else if !ids_distinct(utxos_of(records@)) {
                    e == Error::DuplicateUnspentTxOut
                } else {
                    e == Error::MonitorIdNotFound && !references_hold(
                        monitors_of(records@),
                        subaddresses_of(records@),
                        utxos_of(records@),
                    )
                },
            },
    {
        let mut monitors: Vec<MonitorData> = Vec::new();
        let mut subaddresses: Vec<SubaddressEntry> = Vec::new();
        let mut utxos: Vec<UnspentTxOut> = Vec::new();
        let mut i: usize = 0;
        proof {
            assert(records@.take(0).len() == 0);
        }
        while i < records.len()
            invariant
                i <= records.len(),
                monitors@ == monitors_of(records@.take(i as int)),
                subaddresses@ == subaddresses_of(records@.take(i as int)),
                utxos@ == utxos_of(records@.take(i as int)),
            decreases records.len() - i,
        {
            proof {
                assert(records@.take(i as int + 1).drop_last() =~= records@.take(i as int));
            }
            match records[i] {
                Record::Monitor(m) => monitors.push(m),
                Record::Subaddress(e) => subaddresses.push(e),
                Record::Utxo(u) => utxos.push(u),
            }
            i += 1;
        }
        proof {
            assert(records@.take(i as int) =~= records@);
        }
        Database::restore(&monitors, &subaddresses, &utxos)
    }
}

/// The stores of a well-formed database pass every check of `restore` and
/// `from_records`, so that the database is made again from its own records
/// as it was.
pub proof fn lemma_own_records_are_sound(db: Database)
    requires
        db.wf(),
    ensures
        monitors_valid(db.monitors@),
        monitors_distinct(db.monitors@),
        subaddresses_distinct(db.subaddresses@),
        ids_distinct(db.utxos@),
        references_hold(db.monitors@, db.subaddresses@, db.utxos@),
{
}

} // verus!

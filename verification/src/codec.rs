//! The fixed binary form of the keys under which records are persisted. The
//! key of each store starts with a byte of its own, so that no key of one
//! store is a key of another.

use crate::error::{DecodeError, Error, KeyError, MetadataStoreError};
use crate::monitor_store::MonitorData;
use crate::subaddress_index::SubaddressEntry;
use crate::utxo_store::UnspentTxOut;
use crate::types::{Key32, MonitorId};
use vstd::prelude::*;

verus! {

/// The one byte of the key under which the schema version is persisted.
pub const SCHEMA_TAG: u8 = 0;

/// First byte of the key of a monitor.
pub const MONITOR_TAG: u8 = 1;

/// First byte of the key of a subaddress.
pub const SUBADDRESS_TAG: u8 = 2;

/// First byte of the key of an unspent output, by its output id.
pub const UTXO_TAG: u8 = 3;

/// First byte of the key of an unspent output, by the subaddress that
/// received it.
pub const UTXO_BY_SUBADDRESS_TAG: u8 = 4;

/// The eight bytes of `x`, most significant first.
pub open spec fn word_bytes(x: u64) -> Seq<u8> {
    seq![
        ((x >> 56) & 0xff) as u8,
        ((x >> 48) & 0xff) as u8,
        ((x >> 40) & 0xff) as u8,
        ((x >> 32) & 0xff) as u8,
        ((x >> 24) & 0xff) as u8,
        ((x >> 16) & 0xff) as u8,
        ((x >> 8) & 0xff) as u8,
        (x & 0xff) as u8,
    ]
}

/// The number that eight bytes stand for, most significant first.
pub open spec fn word_of(b0: u8, b1: u8, b2: u8, b3: u8, b4: u8, b5: u8, b6: u8, b7: u8) -> u64 {
    (b0 as u64) << 56 | (b1 as u64) << 48 | (b2 as u64) << 40 | (b3 as u64) << 32 | (b4 as u64)
        << 24 | (b5 as u64) << 16 | (b6 as u64) << 8 | (b7 as u64)
}

/// The number that the first eight bytes of `b` stand for, most significant
/// first.
pub open spec fn word_value(b: Seq<u8>) -> u64 {
    word_of(b[0], b[1], b[2], b[3], b[4], b[5], b[6], b[7])
}

/// The thirty-two bytes of `k`.
pub open spec fn key_bytes(k: Key32) -> Seq<u8> {
    word_bytes(k.w0) + word_bytes(k.w1) + word_bytes(k.w2) + word_bytes(k.w3)
}

/// The key that the first thirty-two bytes of `b` stand for.
pub open spec fn key_value(b: Seq<u8>) -> Key32 {
    Key32 {
        w0: word_value(b.subrange(0, 8)),
        w1: word_value(b.subrange(8, 16)),
        w2: word_value(b.subrange(16, 24)),
        w3: word_value(b.subrange(24, 32)),
    }
}

/// The key under which the monitor `id` is persisted.
pub open spec fn monitor_key(id: MonitorId) -> Seq<u8> {
    seq![MONITOR_TAG] + key_bytes(id.account) + word_bytes(id.first_subaddress) + word_bytes(
        id.num_subaddresses,
    )
}

/// The key under which the subaddress with the spend public key `k` is
/// persisted.
pub open spec fn subaddress_key(k: Key32) -> Seq<u8> {
    seq![SUBADDRESS_TAG] + key_bytes(k)
}

/// The key under which the unspent output `output_id` is persisted.
pub open spec fn utxo_key(output_id: u64) -> Seq<u8> {
    seq![UTXO_TAG] + word_bytes(output_id)
}

/// The key under which the unspent outputs of subaddress `index` of the
/// monitor `id` are persisted.
pub open spec fn utxo_by_subaddress_key(id: MonitorId, index: u64) -> Seq<u8> {
    seq![UTXO_BY_SUBADDRESS_TAG] + key_bytes(id.account) + word_bytes(id.first_subaddress)
        + word_bytes(id.num_subaddresses) + word_bytes(index)
}

/// Eight bytes stand for the number they were made from, and a number gives
/// the bytes it was read from.
pub proof fn lemma_word_round_trip(x: u64, b: Seq<u8>)
    ensures
        word_bytes(x).len() == 8,
        word_value(word_bytes(x)) == x,
        b.len() == 8 ==> word_bytes(word_value(b)) == b,
{
    assert((((x >> 56) & 0xff) as u8 as u64) << 56 | (((x >> 48) & 0xff) as u8 as u64) << 48 | (((x
        >> 40) & 0xff) as u8 as u64) << 40 | (((x >> 32) & 0xff) as u8 as u64) << 32 | (((x >> 24)
        & 0xff) as u8 as u64) << 24 | (((x >> 16) & 0xff) as u8 as u64) << 16 | (((x >> 8) & 0xff) as u8 as u64)
        << 8 | ((x & 0xff) as u8 as u64) == x) by (bit_vector);
    if b.len() == 8 {
        let (b0, b1, b2, b3, b4, b5, b6, b7) = (b[0], b[1], b[2], b[3], b[4], b[5], b[6], b[7]);
        let v = word_of(b0, b1, b2, b3, b4, b5, b6, b7);
        assert(((v >> 56) & 0xff) as u8 == b0 && ((v >> 48) & 0xff) as u8 == b1 && ((v >> 40)
            & 0xff) as u8 == b2 && ((v >> 32) & 0xff) as u8 == b3 && ((v >> 24) & 0xff) as u8 == b4
            && ((v >> 16) & 0xff) as u8 == b5 && ((v >> 8) & 0xff) as u8 == b6 && (v & 0xff) as u8
            == b7) by (bit_vector)
            requires
                v == (b0 as u64) << 56 | (b1 as u64) << 48 | (b2 as u64) << 40 | (b3 as u64) << 32
                    | (b4 as u64) << 24 | (b5 as u64) << 16 | (b6 as u64) << 8 | (b7 as u64),
        ;
        assert(word_bytes(word_value(b)) =~= b);
    }
}

/// Thirty-two bytes stand for the key they were made from, and a key gives
/// the bytes it was read from.
pub proof fn lemma_key_round_trip(k: Key32, b: Seq<u8>)
    ensures
        key_bytes(k).len() == 32,
        key_value(key_bytes(k)) == k,
        b.len() == 32 ==> key_bytes(key_value(b)) == b,
{
    let kb = key_bytes(k);
    lemma_word_round_trip(k.w0, kb.subrange(0, 8));
    lemma_word_round_trip(k.w1, kb.subrange(8, 16));
    lemma_word_round_trip(k.w2, kb.subrange(16, 24));
    lemma_word_round_trip(k.w3, kb.subrange(24, 32));
    assert(kb.subrange(0, 8) =~= word_bytes(k.w0));
    assert(kb.subrange(8, 16) =~= word_bytes(k.w1));
    assert(kb.subrange(16, 24) =~= word_bytes(k.w2));
    assert(kb.subrange(24, 32) =~= word_bytes(k.w3));
    if b.len() == 32 {
        lemma_word_round_trip(0, b.subrange(0, 8));
        lemma_word_round_trip(0, b.subrange(8, 16));
        lemma_word_round_trip(0, b.subrange(16, 24));
        lemma_word_round_trip(0, b.subrange(24, 32));
        assert(key_bytes(key_value(b)) =~= b.subrange(0, 8) + b.subrange(8, 16) + b.subrange(
            16,
            24,
        ) + b.subrange(24, 32));
        assert(b.subrange(0, 8) + b.subrange(8, 16) + b.subrange(16, 24) + b.subrange(24, 32)
            =~= b);
    }
}

/// Appends the eight bytes of `x` to `out`.
fn put_word(out: &mut Vec<u8>, x: u64)
    ensures
        final(out)@ == old(out)@ + word_bytes(x),
{
    out.push(((x >> 56) & 0xff) as u8);
    out.push(((x >> 48) & 0xff) as u8);
    out.push(((x >> 40) & 0xff) as u8);
    out.push(((x >> 32) & 0xff) as u8);
    out.push(((x >> 24) & 0xff) as u8);
    out.push(((x >> 16) & 0xff) as u8);
    out.push(((x >> 8) & 0xff) as u8);
    out.push((x & 0xff) as u8);
    proof {
        assert(out@ =~= old(out)@ + word_bytes(x));
    }
}

/// Appends the thirty-two bytes of `k` to `out`.
fn put_key(out: &mut Vec<u8>, k: Key32)
    ensures
        final(out)@ == old(out)@ + key_bytes(k),
{
    put_word(out, k.w0);
    put_word(out, k.w1);
    put_word(out, k.w2);
    put_word(out, k.w3);
    proof {
        assert(out@ =~= old(out)@ + key_bytes(k));
    }
}

/// The number that the eight bytes of `b` from place `at` on stand for.
fn get_word(b: &Vec<u8>, at: usize) -> (x: u64)
    requires
        at + 8 <= b.len(),
    ensures
        x == word_value(b@.subrange(at as int, at + 8)),
{
    (b[at] as u64) << 56 | (b[at + 1] as u64) << 48 | (b[at + 2] as u64) << 40 | (b[at + 3] as u64)
        << 32 | (b[at + 4] as u64) << 24 | (b[at + 5] as u64) << 16 | (b[at + 6] as u64) << 8 | (b[at
        + 7] as u64)
}

/// The key that the thirty-two bytes of `b` from place `at` on stand for.
fn get_key(b: &Vec<u8>, at: usize) -> (k: Key32)
    requires
        at + 32 <= b.len(),
    ensures
        k == key_value(b@.subrange(at as int, at + 32)),
{
    let ghost part = b@.subrange(at as int, at + 32);
    proof {
        assert(part.subrange(0, 8) =~= b@.subrange(at as int, at + 8));
        assert(part.subrange(8, 16) =~= b@.subrange(at + 8, at + 16));
        assert(part.subrange(16, 24) =~= b@.subrange(at + 16, at + 24));
        assert(part.subrange(24, 32) =~= b@.subrange(at + 24, at + 32));
    }
    Key32 {
        w0: get_word(b, at),
        w1: get_word(b, at + 8),
        w2: get_word(b, at + 16),
        w3: get_word(b, at + 24),
    }
}

/// The thirty-two bytes of `k`.
pub fn key_to_bytes(k: &Key32) -> (r: Vec<u8>)
    ensures
        r@ == key_bytes(*k),
{
    let mut out: Vec<u8> = Vec::new();
    put_key(&mut out, *k);
    out
}

/// The key that `bytes` stand for. Bytes of another length than thirty-two
/// are a key error that carries their length and the length asked for.
pub fn key_from_bytes(bytes: &Vec<u8>) -> (r: Result<Key32, Error>)
    ensures
        match r {
            Ok(k) => bytes@.len() == 32 && key_bytes(k) == bytes@,
            Err(e) => bytes@.len() != 32 && e == Error::Key(
                KeyError::LengthMismatch(bytes@.len() as usize, 32),
            ),
        },
{
    if bytes.len() != 32 {
        return Err(Error::from(KeyError::LengthMismatch(bytes.len(), 32)));
    }
    let k = get_key(bytes, 0);
    proof {
        assert(bytes@.subrange(0, 32) =~= bytes@);
        lemma_key_round_trip(k, bytes@);
    }
    Ok(k)
}

/// The key under which the monitor `id` is persisted.
pub fn encode_monitor_key(id: &MonitorId) -> (r: Vec<u8>)
    ensures
        r@ == monitor_key(*id),
{
    let mut out: Vec<u8> = Vec::new();
    out.push(MONITOR_TAG);
    put_key(&mut out, id.account);
    put_word(&mut out, id.first_subaddress);
    put_word(&mut out, id.num_subaddresses);
    proof {
        assert(out@ =~= monitor_key(*id));
    }
    out
}

/// The monitor whose key `bytes` is. Bytes that are no key of a monitor are
/// a key deserialization error.
pub fn decode_monitor_key(bytes: &Vec<u8>) -> (r: Result<MonitorId, Error>)
    ensures
        match r {
            Ok(id) => monitor_key(id) == bytes@,
            Err(e) => e == Error::KeyDeserializationError && forall|id: MonitorId|
                monitor_key(id) != bytes@,
        },
{
    if bytes.len() != 49 || bytes[0] != MONITOR_TAG {
        proof {
            assert forall|id: MonitorId| monitor_key(id) != bytes@ by {
                lemma_key_round_trip(id.account, bytes@);
                assert(monitor_key(id).len() == 49);
                assert(monitor_key(id)[0] == MONITOR_TAG);
            }
        }
        return Err(Error::KeyDeserializationError);
    }
    let id = MonitorId {
        account: get_key(bytes, 1),
        first_subaddress: get_word(bytes, 33),
        num_subaddresses: get_word(bytes, 41),
    };
    proof {
        lemma_key_round_trip(id.account, bytes@.subrange(1, 33));
        lemma_word_round_trip(0, bytes@.subrange(33, 41));
        lemma_word_round_trip(0, bytes@.subrange(41, 49));
        assert(monitor_key(id) =~= bytes@);
    }
    Ok(id)
}

/// The key under which the subaddress with the spend public key `k` is
/// persisted.
pub fn encode_subaddress_key(k: &Key32) -> (r: Vec<u8>)
    ensures
        r@ == subaddress_key(*k),
{
    let mut out: Vec<u8> = Vec::new();
    out.push(SUBADDRESS_TAG);
    put_key(&mut out, *k);
    out
}

/// The spend public key whose key `bytes` is. Bytes that are no key of a
/// subaddress are a key deserialization error.
pub fn decode_subaddress_key(bytes: &Vec<u8>) -> (r: Result<Key32, Error>)
    ensures
        match r {
            Ok(k) => subaddress_key(k) == bytes@,
            Err(e) => e == Error::KeyDeserializationError && forall|k: Key32|
                subaddress_key(k) != bytes@,
        },
{
    if bytes.len() != 33 || bytes[0] != SUBADDRESS_TAG {
        proof {
            assert forall|k: Key32| subaddress_key(k) != bytes@ by {
                lemma_key_round_trip(k, bytes@);
                assert(subaddress_key(k).len() == 33);
                assert(subaddress_key(k)[0] == SUBADDRESS_TAG);
            }
        }
        return Err(Error::KeyDeserializationError);
    }
    let k = get_key(bytes, 1);
    proof {
        lemma_key_round_trip(k, bytes@.subrange(1, 33));
        assert(subaddress_key(k) =~= bytes@);
    }
    Ok(k)
}

/// The key under which the unspent output `output_id` is persisted.
pub fn encode_utxo_key(output_id: u64) -> (r: Vec<u8>)
    ensures
        r@ == utxo_key(output_id),
{
    let mut out: Vec<u8> = Vec::new();
    out.push(UTXO_TAG);
    put_word(&mut out, output_id);
    out
}

/// The output id whose key `bytes` is. Bytes that are no key of an unspent
/// output are a key deserialization error.
pub fn decode_utxo_key(bytes: &Vec<u8>) -> (r: Result<u64, Error>)
    ensures
        match r {
            Ok(id) => utxo_key(id) == bytes@,
            Err(e) => e == Error::KeyDeserializationError && forall|id: u64|
                utxo_key(id) != bytes@,
        },
{
    if bytes.len() != 9 || bytes[0] != UTXO_TAG {
        proof {
            assert forall|id: u64| utxo_key(id) != bytes@ by {
                assert(utxo_key(id).len() == 9);
                assert(utxo_key(id)[0] == UTXO_TAG);
            }
        }
        return Err(Error::KeyDeserializationError);
    }
    let id = get_word(bytes, 1);
    proof {
        lemma_word_round_trip(0, bytes@.subrange(1, 9));
        assert(utxo_key(id) =~= bytes@);
    }
    Ok(id)
}

/// The key under which the unspent outputs of subaddress `index` of the
/// monitor `id` are persisted.
pub fn encode_utxo_by_subaddress_key(id: &MonitorId, index: u64) -> (r: Vec<u8>)
    ensures
        r@ == utxo_by_subaddress_key(*id, index),
{
    let mut out: Vec<u8> = Vec::new();
    out.push(UTXO_BY_SUBADDRESS_TAG);
    put_key(&mut out, id.account);
    put_word(&mut out, id.first_subaddress);
    put_word(&mut out, id.num_subaddresses);
    put_word(&mut out, index);
    proof {
        assert(out@ =~= utxo_by_subaddress_key(*id, index));
    }
    out
}

/// The monitor and the subaddress whose key `bytes` is. Bytes that are no
/// such key are a key deserialization error.
pub fn decode_utxo_by_subaddress_key(bytes: &Vec<u8>) -> (r: Result<(MonitorId, u64), Error>)
    ensures
        match r {
            Ok((id, index)) => utxo_by_subaddress_key(id, index) == bytes@,
            Err(e) => e == Error::KeyDeserializationError && forall|id: MonitorId, index: u64|
                utxo_by_subaddress_key(id, index) != bytes@,
        },
{
    if bytes.len() != 57 || bytes[0] != UTXO_BY_SUBADDRESS_TAG {
        proof {
            assert forall|id: MonitorId, index: u64| utxo_by_subaddress_key(id, index)
                != bytes@ by {
                lemma_key_round_trip(id.account, bytes@);
                assert(utxo_by_subaddress_key(id, index).len() == 57);
                assert(utxo_by_subaddress_key(id, index)[0] == UTXO_BY_SUBADDRESS_TAG);
            }
        }
        return Err(Error::KeyDeserializationError);
    }
    let id = MonitorId {
        account: get_key(bytes, 1),
        first_subaddress: get_word(bytes, 33),
        num_subaddresses: get_word(bytes, 41),
    };
    let index = get_word(bytes, 49);
    proof {
        lemma_key_round_trip(id.account, bytes@.subrange(1, 33));
        lemma_word_round_trip(0, bytes@.subrange(33, 41));
        lemma_word_round_trip(0, bytes@.subrange(41, 49));
        lemma_word_round_trip(0, bytes@.subrange(49, 57));
        assert(utxo_by_subaddress_key(id, index) =~= bytes@);
    }
    Ok((id, index))
}

/// The forty-eight bytes of the monitor identifier `id`.
pub open spec fn id_bytes(id: MonitorId) -> Seq<u8> {
    key_bytes(id.account) + word_bytes(id.first_subaddress) + word_bytes(id.num_subaddresses)
}

/// The value that is persisted under the key of the monitor `m`: its first
/// block and its cursor.
pub open spec fn monitor_value(m: MonitorData) -> Seq<u8> {
    word_bytes(m.first_block) + word_bytes(m.next_block)
}

/// The value that is persisted under the key of the subaddress `e`: its
/// monitor and its index.
pub open spec fn subaddress_value(e: SubaddressEntry) -> Seq<u8> {
    id_bytes(e.monitor_id) + word_bytes(e.index)
}

/// The value that is persisted under the key of the unspent output `u`: its
/// monitor, subaddress, amount, key image and block.
pub open spec fn utxo_value(u: UnspentTxOut) -> Seq<u8> {
    id_bytes(u.monitor_id) + word_bytes(u.subaddress_index) + word_bytes(u.value) + key_bytes(
        u.key_image,
    ) + word_bytes(u.block_index)
}

/// Appends the forty-eight bytes of `id` to `out`.
fn put_id(out: &mut Vec<u8>, id: &MonitorId)
    ensures
        final(out)@ == old(out)@ + id_bytes(*id),
{
    put_key(out, id.account);
    put_word(out, id.first_subaddress);
    put_word(out, id.num_subaddresses);
    proof {
        assert(out@ =~= old(out)@ + id_bytes(*id));
    }
}

/// The monitor identifier that the forty-eight bytes of `b` from place `at`
/// on stand for.
fn get_id(b: &Vec<u8>, at: usize) -> (id: MonitorId)
    requires
        at + 48 <= b.len(),
    ensures
        id_bytes(id) == b@.subrange(at as int, at + 48),
{
    let id = MonitorId {
        account: get_key(b, at),
        first_subaddress: get_word(b, at + 32),
        num_subaddresses: get_word(b, at + 40),
    };
    proof {
        lemma_key_round_trip(id.account, b@.subrange(at as int, at + 32));
        lemma_word_round_trip(0, b@.subrange(at + 32, at + 40));
        lemma_word_round_trip(0, b@.subrange(at + 40, at + 48));
        assert(id_bytes(id) =~= b@.subrange(at as int, at + 48));
    }
    id
}

/// The error of a value that is no record: a deserialization error that
/// says that the value has not the length of a record.
fn malformed_value() -> (e: Error)
    ensures
        e matches Error::Deserialization(d) && d.reason@
            == "the value has not the length of a record"@,
{
    Error::from(DecodeError { reason: "the value has not the length of a record".to_owned() })
}

/// The key and the value under which the monitor `m` is persisted.
pub fn encode_monitor(m: &MonitorData) -> (r: (Vec<u8>, Vec<u8>))
    ensures
        r.0@ == monitor_key(m.spec_id()),
        r.1@ == monitor_value(*m),
{
    let mut value: Vec<u8> = Vec::new();
    put_word(&mut value, m.first_block);
    put_word(&mut value, m.next_block);
    (encode_monitor_key(&m.id()), value)
}

/// The monitor that is persisted under `key` with `value`. A malformed key is
/// a key deserialization error, a malformed value a deserialization error.
pub fn decode_monitor(key: &Vec<u8>, value: &Vec<u8>) -> (r: Result<MonitorData, Error>)
    ensures
        match r {
            Ok(m) => monitor_key(m.spec_id()) == key@ && monitor_value(m) == value@,
            Err(e) => if forall|id: MonitorId| monitor_key(id) != key@ {
                e == Error::KeyDeserializationError
            } else {
                e is Deserialization && value@.len() != 16
            },
        },
{
    let id = match decode_monitor_key(key) {
        Ok(id) => id,
        Err(e) => {
            return Err(e);
        },
    };
    if value.len() != 16 {
        return Err(malformed_value());
    }
    let m = MonitorData {
        account: id.account,
        first_subaddress: id.first_subaddress,
        num_subaddresses: id.num_subaddresses,
        first_block: get_word(value, 0),
        next_block: get_word(value, 8),
    };
    proof {
        lemma_word_round_trip(0, value@.subrange(0, 8));
        lemma_word_round_trip(0, value@.subrange(8, 16));
        assert(monitor_value(m) =~= value@);
    }
    Ok(m)
}

/// The key and the value under which the subaddress `e` is persisted.
pub fn encode_subaddress(e: &SubaddressEntry) -> (r: (Vec<u8>, Vec<u8>))
    ensures
        r.0@ == subaddress_key(e.spend_public_key),
        r.1@ == subaddress_value(*e),
{
    let mut value: Vec<u8> = Vec::new();
    put_id(&mut value, &e.monitor_id);
    put_word(&mut value, e.index);
    (encode_subaddress_key(&e.spend_public_key), value)
}

/// The subaddress that is persisted under `key` with `value`. A malformed key
/// is a key deserialization error, a malformed value a deserialization error.
pub fn decode_subaddress(key: &Vec<u8>, value: &Vec<u8>) -> (r: Result<SubaddressEntry, Error>)
    ensures
        match r {
            Ok(e) => subaddress_key(e.spend_public_key) == key@ && subaddress_value(e) == value@,
            Err(e) => if forall|k: Key32| subaddress_key(k) != key@ {
                e == Error::KeyDeserializationError
            } else {
                e is Deserialization && value@.len() != 56
            },
        },
{
    let spend_public_key = match decode_subaddress_key(key) {
        Ok(k) => k,
        Err(e) => {
            return Err(e);
        },
    };
    if value.len() != 56 {
        return Err(malformed_value());
    }
    let e = SubaddressEntry {
        spend_public_key,
        monitor_id: get_id(value, 0),
        index: get_word(value, 48),
    };
    proof {
        lemma_word_round_trip(0, value@.subrange(48, 56));
        assert(subaddress_value(e) =~= value@);
    }
    Ok(e)
}

/// The key and the value under which the unspent output `u` is persisted.
pub fn encode_utxo(u: &UnspentTxOut) -> (r: (Vec<u8>, Vec<u8>))
    ensures
        r.0@ == utxo_key(u.output_id),
        r.1@ == utxo_value(*u),
{
    let mut value: Vec<u8> = Vec::new();
    put_id(&mut value, &u.monitor_id);
    put_word(&mut value, u.subaddress_index);
    put_word(&mut value, u.value);
    put_key(&mut value, u.key_image);
    put_word(&mut value, u.block_index);
    (encode_utxo_key(u.output_id), value)
}

/// The unspent output that is persisted under `key` with `value`. A malformed
/// key is a key deserialization error, a malformed value a deserialization
/// error.
pub fn decode_utxo(key: &Vec<u8>, value: &Vec<u8>) -> (r: Result<UnspentTxOut, Error>)
    ensures
        match r {
            Ok(u) => utxo_key(u.output_id) == key@ && utxo_value(u) == value@,
            Err(e) => if forall|id: u64| utxo_key(id) != key@ {
                e == Error::KeyDeserializationError
            } else {
                e is Deserialization && value@.len() != 104
            },
        },
{
    let output_id = match decode_utxo_key(key) {
        Ok(id) => id,
        Err(e) => {
            return Err(e);
        },
    };
    if value.len() != 104 {
        return Err(malformed_value());
    }
    let u = UnspentTxOut {
        output_id,
        monitor_id: get_id(value, 0),
        subaddress_index: get_word(value, 48),
        value: get_word(value, 56),
        key_image: get_key(value, 64),
        block_index: get_word(value, 96),
    };
    proof {
        lemma_word_round_trip(0, value@.subrange(48, 56));
        lemma_word_round_trip(0, value@.subrange(56, 64));
        lemma_key_round_trip(u.key_image, value@.subrange(64, 96));
        lemma_word_round_trip(0, value@.subrange(96, 104));
        assert(utxo_value(u) =~= value@);
    }
    Ok(u)
}

/// The key and the value under which the schema version `version` is
/// persisted.
pub fn encode_schema_version(version: u64) -> (r: (Vec<u8>, Vec<u8>))
    ensures
        r.0@ == seq![SCHEMA_TAG],
        r.1@ == word_bytes(version),
{
    let mut key: Vec<u8> = Vec::new();
    key.push(SCHEMA_TAG);
    let mut value: Vec<u8> = Vec::new();
    put_word(&mut value, version);
    proof {
        assert(key@ =~= seq![SCHEMA_TAG]);
        assert(value@ =~= word_bytes(version));
    }
    (key, value)
}

/// The schema version that is persisted as `value`. A value of another
/// length than eight bytes is a failure of the metadata.
pub fn decode_schema_version(value: &Vec<u8>) -> (r: Result<u64, Error>)
    ensures
        match r {
            Ok(version) => word_bytes(version) == value@,
            Err(e) => e is MetadataStore && value@.len() != 8,
        },
{
    if value.len() != 8 {
        return Err(
            Error::from(
                MetadataStoreError::Failure("the schema version has not eight bytes".to_owned()),
            ),
        );
    }
    let version = get_word(value, 0);
    proof {
        assert(value@.subrange(0, 8) =~= value@);
        lemma_word_round_trip(0, value@);
    }
    Ok(version)
}

} // verus!

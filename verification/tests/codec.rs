use mobilecoind::codec::{
    decode_monitor, decode_monitor_key, decode_subaddress, decode_subaddress_key, decode_utxo,
    decode_utxo_by_subaddress_key, decode_utxo_key, encode_monitor, encode_monitor_key,
    encode_subaddress, encode_subaddress_key, encode_utxo, encode_utxo_by_subaddress_key,
    encode_utxo_key, key_from_bytes, key_to_bytes,
};
use mobilecoind::error::{Error, KeyError};
use mobilecoind::monitor_store::MonitorData;
use mobilecoind::subaddress_index::SubaddressEntry;
use mobilecoind::types::{Key32, MonitorId};
use mobilecoind::utxo_store::UnspentTxOut;

fn sample_key() -> Key32 {
    Key32 { w0: 0x0102030405060708, w1: 0x090a0b0c0d0e0f10, w2: 0x1112131415161718, w3: 0x191a1b1c1d1e1f20 }
}

fn sample_monitor() -> MonitorId {
    MonitorId { account: sample_key(), first_subaddress: 0x2122232425262728, num_subaddresses: 3 }
}

#[test]
fn key_bytes_are_the_words_most_significant_first() {
    let bytes = key_to_bytes(&sample_key());
    assert_eq!(bytes, (1u8..=32).collect::<Vec<u8>>());
    assert_eq!(key_from_bytes(&bytes).unwrap(), sample_key());
}

#[test]
fn key_of_another_length_is_a_length_mismatch() {
    assert!(matches!(
        key_from_bytes(&vec![0u8; 31]),
        Err(Error::Key(KeyError::LengthMismatch(31, 32)))
    ));
    assert!(matches!(
        key_from_bytes(&Vec::new()),
        Err(Error::Key(KeyError::LengthMismatch(0, 32)))
    ));
    assert!(matches!(
        key_from_bytes(&vec![0u8; 33]),
        Err(Error::Key(KeyError::LengthMismatch(33, 32)))
    ));
}

#[test]
fn monitor_key_is_tag_account_and_range() {
    let bytes = encode_monitor_key(&sample_monitor());
    let mut expected = vec![1u8];
    expected.extend(1u8..=40);
    expected.extend([0, 0, 0, 0, 0, 0, 0, 3]);
    assert_eq!(bytes, expected);
    assert_eq!(decode_monitor_key(&bytes).unwrap(), sample_monitor());
}

#[test]
fn subaddress_key_and_utxo_keys_round_trip() {
    let bytes = encode_subaddress_key(&sample_key());
    assert_eq!(bytes.len(), 33);
    assert_eq!(bytes[0], 2);
    assert_eq!(decode_subaddress_key(&bytes).unwrap(), sample_key());

    let bytes = encode_utxo_key(0x0102030405060708);
    assert_eq!(bytes, vec![3, 1, 2, 3, 4, 5, 6, 7, 8]);
    assert_eq!(decode_utxo_key(&bytes).unwrap(), 0x0102030405060708);
    assert_eq!(decode_utxo_key(&encode_utxo_key(u64::MAX)).unwrap(), u64::MAX);
    assert_eq!(decode_utxo_key(&encode_utxo_key(0)).unwrap(), 0);

    let bytes = encode_utxo_by_subaddress_key(&sample_monitor(), 258);
    assert_eq!(bytes.len(), 57);
    assert_eq!(bytes[0], 4);
    assert_eq!(&bytes[49..], &[0, 0, 0, 0, 0, 0, 1, 2]);
    assert_eq!(decode_utxo_by_subaddress_key(&bytes).unwrap(), (sample_monitor(), 258));
}

#[test]
fn malformed_keys_are_key_deserialization_errors() {
    let good = encode_monitor_key(&sample_monitor());
    let mut short = good.clone();
    short.pop();
    assert!(matches!(decode_monitor_key(&short), Err(Error::KeyDeserializationError)));
    let mut long = good.clone();
    long.push(0);
    assert!(matches!(decode_monitor_key(&long), Err(Error::KeyDeserializationError)));
    let mut foreign = good.clone();
    foreign[0] = 2;
    assert!(matches!(decode_monitor_key(&foreign), Err(Error::KeyDeserializationError)));
    assert!(matches!(decode_monitor_key(&Vec::new()), Err(Error::KeyDeserializationError)));
    assert!(matches!(decode_subaddress_key(&good), Err(Error::KeyDeserializationError)));
    assert!(matches!(decode_utxo_key(&vec![3, 0, 0]), Err(Error::KeyDeserializationError)));
    assert!(matches!(decode_utxo_key(&encode_subaddress_key(&sample_key())), Err(Error::KeyDeserializationError)));
    assert!(matches!(
        decode_utxo_by_subaddress_key(&encode_utxo_key(5)),
        Err(Error::KeyDeserializationError)
    ));
}

#[test]
fn records_round_trip_through_their_keys_and_values() {
    let m = MonitorData {
        account: sample_key(),
        first_subaddress: 0x2122232425262728,
        num_subaddresses: 3,
        first_block: 0x0102,
        next_block: 0x0304,
    };
    let (key, value) = encode_monitor(&m);
    assert_eq!(key, encode_monitor_key(&sample_monitor()));
    assert_eq!(value, vec![0, 0, 0, 0, 0, 0, 1, 2, 0, 0, 0, 0, 0, 0, 3, 4]);
    assert_eq!(decode_monitor(&key, &value).unwrap(), m);
    assert!(matches!(decode_monitor(&key, &value[1..].to_vec()), Err(Error::Deserialization(_))));
    assert!(matches!(decode_monitor(&value, &value), Err(Error::KeyDeserializationError)));

    let e = SubaddressEntry { spend_public_key: sample_key(), monitor_id: sample_monitor(), index: 7 };
    let (key, value) = encode_subaddress(&e);
    assert_eq!(key, encode_subaddress_key(&sample_key()));
    assert_eq!(value.len(), 56);
    assert_eq!(&value[..48], &encode_monitor_key(&sample_monitor())[1..]);
    assert_eq!(&value[48..], &[0, 0, 0, 0, 0, 0, 0, 7]);
    assert_eq!(decode_subaddress(&key, &value).unwrap(), e);
    assert!(matches!(decode_subaddress(&key, &Vec::new()), Err(Error::Deserialization(_))));
    assert!(matches!(decode_subaddress(&value, &value), Err(Error::KeyDeserializationError)));

    let u = UnspentTxOut {
        output_id: 99,
        monitor_id: sample_monitor(),
        subaddress_index: 1,
        value: u64::MAX,
        key_image: Key32 { w0: 4, w1: 3, w2: 2, w3: 1 },
        block_index: 12,
    };
    let (key, value) = encode_utxo(&u);
    assert_eq!(key, encode_utxo_key(99));
    assert_eq!(value.len(), 104);
    assert_eq!(&value[56..64], &[255u8; 8]);
    assert_eq!(decode_utxo(&key, &value).unwrap(), u);
    let mut long = value.clone();
    long.push(0);
    assert!(matches!(decode_utxo(&key, &long), Err(Error::Deserialization(_))));
    assert!(matches!(decode_utxo(&value, &value), Err(Error::KeyDeserializationError)));
}

#[test]
fn keys_of_different_stores_and_records_differ() {
    let a = sample_monitor();
    let b = MonitorId { num_subaddresses: 4, ..sample_monitor() };
    let keys = vec![
        encode_monitor_key(&a),
        encode_monitor_key(&b),
        encode_subaddress_key(&sample_key()),
        encode_subaddress_key(&Key32 { w3: 0, ..sample_key() }),
        encode_utxo_key(1),
        encode_utxo_key(256),
        encode_utxo_by_subaddress_key(&a, 1),
        encode_utxo_by_subaddress_key(&a, 2),
        encode_utxo_by_subaddress_key(&b, 1),
    ];
    for i in 0..keys.len() {
        for j in 0..keys.len() {
            assert_eq!(keys[i] == keys[j], i == j);
        }
    }
}

#[test]
fn schema_version_is_eight_bytes_under_the_key_zero() {
    let (key, value) = mobilecoind::codec::encode_schema_version(0x0102);
    assert_eq!(key, vec![0]);
    assert_eq!(value, vec![0, 0, 0, 0, 0, 0, 1, 2]);
    assert_eq!(mobilecoind::codec::decode_schema_version(&value).unwrap(), 0x0102);
    assert!(matches!(
        mobilecoind::codec::decode_schema_version(&vec![1, 2]),
        Err(Error::MetadataStore(mobilecoind::error::MetadataStoreError::Failure(_)))
    ));
}

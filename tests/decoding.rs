use grandma::codec::{read_array, read_compact_u32, read_u32, read_u64};
use grandma::hashing::{decode_hex, encode_hex};
use grandma::justification::decode_justification;
use grandma::primitives::{AccountId, DecodeError, StateStoreRpc};
use grandma::session_keys::{decode_queued_keys, DarwiniaSessionKeys, PolkadotSessionKeys, SessionKeys};

fn key(b: u8) -> [u8; 32] {
    [b; 32]
}

fn polkadot_queue(pairs: &[(u8, u8)]) -> Vec<u8> {
    let mut v = vec![(pairs.len() as u8) << 2];
    for &(stash, grandpa) in pairs {
        v.extend_from_slice(&key(stash));
        v.extend_from_slice(&key(grandpa));
        for other in 0..5u8 {
            v.extend_from_slice(&key(200 + other));
        }
    }
    v
}

fn justification(round: u64, ids: &[u8]) -> Vec<u8> {
    let mut v = round.to_le_bytes().to_vec();
    v.extend_from_slice(&[7u8; 32]);
    v.extend_from_slice(&100u32.to_le_bytes());
    v.push((ids.len() as u8) << 2);
    for &id in ids {
        v.extend_from_slice(&[7u8; 32]);
        v.extend_from_slice(&100u32.to_le_bytes());
        v.extend_from_slice(&[9u8; 64]);
        v.extend_from_slice(&key(id));
    }
    v
}

#[test]
fn little_endian_integers() {
    let d = [0x01u8, 0x02, 0x03, 0x04, 0x05, 0x06, 0x07, 0x08];
    assert_eq!(read_u32(&d, 0), Some((0x04030201, 4)));
    assert_eq!(read_u32(&d, 4), Some((0x08070605, 8)));
    assert_eq!(read_u32(&d, 5), None);
    assert_eq!(read_u64(&d, 0), Some((0x0807060504030201, 8)));
    assert_eq!(read_u64(&d, 1), None);
    assert_eq!(read_array::<3>(&d, 2), Some(([3, 4, 5], 5)));
    assert_eq!(read_array::<9>(&d, 0), None);
}

#[test]
fn compact_lengths_in_each_mode() {
    assert_eq!(read_compact_u32(&[0x00], 0), Some((0, 1)));
    assert_eq!(read_compact_u32(&[0xfc], 0), Some((63, 1)));
    assert_eq!(read_compact_u32(&[0x01, 0x01], 0), Some((64, 2)));
    assert_eq!(read_compact_u32(&[0x15, 0x01], 0), Some((69, 2)));
    assert_eq!(read_compact_u32(&[0x02, 0x00, 0x01, 0x00], 0), Some((16384, 4)));
    assert_eq!(read_compact_u32(&[0x03, 0x00, 0x00, 0x00, 0x40], 0), Some((1 << 30, 5)));
    assert_eq!(read_compact_u32(&[0x03, 0xff, 0xff, 0xff, 0xff], 0), Some((u32::MAX, 5)));
    assert_eq!(read_compact_u32(&[9, 0x04], 1), Some((1, 2)));
}

#[test]
fn compact_lengths_refused() {
    // A value below 64 in the two-byte mode is not the shortest encoding.
    assert_eq!(read_compact_u32(&[0x05, 0x00], 0), None);
    assert_eq!(read_compact_u32(&[0x02, 0x01, 0x00, 0x00], 0), None);
    assert_eq!(read_compact_u32(&[0x03, 0xff, 0xff, 0xff, 0x3f], 0), None);
    assert_eq!(read_compact_u32(&[0x07, 0, 0, 0, 0, 0], 0), None);
    assert_eq!(read_compact_u32(&[0x01], 0), None);
    assert_eq!(read_compact_u32(&[], 0), None);
}

#[test]
fn polkadot_queue_decodes() {
    let d = polkadot_queue(&[(1, 11), (2, 12)]);
    let q = decode_queued_keys::<PolkadotSessionKeys>(&d).unwrap();
    assert_eq!(q.len(), 2);
    assert_eq!(q[0].0, AccountId(key(1)));
    assert_eq!(*q[0].1.grandpa(), AccountId(key(11)));
    assert_eq!(q[1].0, AccountId(key(2)));
    assert_eq!(*q[1].1.grandpa(), AccountId(key(12)));
    assert_eq!(q[1].1.authority_discovery, AccountId(key(204)));
}

#[test]
fn darwinia_queue_takes_second_key() {
    let mut d = vec![1u8 << 2];
    for b in [5u8, 50, 51, 52, 53] {
        d.extend_from_slice(&key(b));
    }
    let q = decode_queued_keys::<DarwiniaSessionKeys>(&d).unwrap();
    assert_eq!(q.len(), 1);
    assert_eq!(q[0].0, AccountId(key(5)));
    assert_eq!(q[0].1.babe, AccountId(key(50)));
    assert_eq!(*q[0].1.grandpa(), AccountId(key(51)));
}

#[test]
fn empty_queue_decodes() {
    let q = decode_queued_keys::<PolkadotSessionKeys>(&[0]).unwrap();
    assert!(q.is_empty());
}

#[test]
fn queue_decoding_is_repeatable() {
    let d = polkadot_queue(&[(1, 11), (2, 12), (3, 13)]);
    let a = decode_queued_keys::<PolkadotSessionKeys>(&d).unwrap();
    let b = decode_queued_keys::<PolkadotSessionKeys>(&d).unwrap();
    assert_eq!(a.len(), b.len());
    for i in 0..a.len() {
        assert_eq!(a[i].0, b[i].0);
        assert_eq!(a[i].1.grandpa(), b[i].1.grandpa());
    }
}

#[test]
fn truncated_queue_fails() {
    let d = polkadot_queue(&[(1, 11), (2, 12)]);
    for cut in 1..d.len() {
        assert_eq!(
            decode_queued_keys::<PolkadotSessionKeys>(&d[..cut]).err(),
            Some(DecodeError::Truncated)
        );
    }
    assert_eq!(decode_queued_keys::<PolkadotSessionKeys>(&[]).err(), Some(DecodeError::BadLength));
    assert_eq!(decode_queued_keys::<PolkadotSessionKeys>(&[0x05, 0x00]).err(), Some(DecodeError::BadLength));
}

#[test]
fn trailing_bytes_are_ignored() {
    let mut d = polkadot_queue(&[(1, 11)]);
    d.extend_from_slice(&[1, 2, 3]);
    assert_eq!(decode_queued_keys::<PolkadotSessionKeys>(&d).unwrap().len(), 1);
}

#[test]
fn justification_decodes() {
    let d = justification(0x0102, &[3, 4]);
    let j = decode_justification(&d).unwrap();
    assert_eq!(j.round, 0x0102);
    assert_eq!(j.commit.target_hash.0, [7u8; 32]);
    assert_eq!(j.commit.target_number, 100);
    assert_eq!(j.commit.precommits.len(), 2);
    assert_eq!(j.commit.precommits[0].id, AccountId(key(3)));
    assert_eq!(j.commit.precommits[1].id, AccountId(key(4)));
    assert_eq!(j.commit.precommits[1].precommit.target_number, 100);
    assert_eq!(j.commit.precommits[1].signature.0, [9u8; 64]);
}

#[test]
fn truncated_justification_fails() {
    let d = justification(5, &[3, 4]);
    for cut in 0..d.len() {
        assert!(decode_justification(&d[..cut]).is_err());
    }
    assert_eq!(decode_justification(&d[..43]).err(), Some(DecodeError::Truncated));
    assert_eq!(decode_justification(&d[..44]).err(), Some(DecodeError::BadLength));
    assert_eq!(decode_justification(&d[..50]).err(), Some(DecodeError::Truncated));
}

#[test]
fn justification_decoding_is_repeatable() {
    let d = justification(9, &[1, 2, 1]);
    let a = decode_justification(&d).unwrap();
    let b = decode_justification(&d).unwrap();
    assert_eq!(a.round, b.round);
    for i in 0..3 {
        assert_eq!(a.commit.precommits[i].id, b.commit.precommits[i].id);
    }
}

#[test]
fn hex_round_trip() {
    assert_eq!(decode_hex("0x0aFf10"), Ok(vec![0x0a, 0xff, 0x10]));
    assert_eq!(decode_hex("0aff"), Ok(vec![0x0a, 0xff]));
    assert_eq!(decode_hex("0x"), Ok(vec![]));
    assert_eq!(decode_hex("0x123"), Err(DecodeError::BadHex));
    assert_eq!(decode_hex("0xzz"), Err(DecodeError::BadHex));
    assert_eq!(encode_hex(&[0x0a, 0xff, 0x10]), "0x0aff10");
    assert_eq!(encode_hex(&[]), "0x");
}

#[test]
fn storage_change_items() {
    let rpc = StateStoreRpc {
        block: "0x00".to_string(),
        changes: vec![vec!["0xkey".to_string(), "0xvalue".to_string()]],
    };
    assert_eq!(rpc.key_of(0), "0xkey");
    assert_eq!(rpc.value_of(0), "0xvalue");
    assert_eq!(rpc.item_of(0), ("0xkey", "0xvalue"));
}

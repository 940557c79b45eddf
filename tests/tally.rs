use grandma::justification::decode_justification;
use grandma::primitives::{AccountId, DecodeError};
use grandma::session_keys::PolkadotSessionKeys;
use grandma::tally::{Visibility, VoteTally};
use grandma::validators::ValidatorSet;

fn id(b: u8) -> AccountId {
    AccountId([b; 32])
}

fn polkadot_queue(pairs: &[(u8, u8)]) -> Vec<u8> {
    let mut v = vec![(pairs.len() as u8) << 2];
    for &(stash, grandpa) in pairs {
        v.extend_from_slice(&[stash; 32]);
        v.extend_from_slice(&[grandpa; 32]);
        for other in 0..5u8 {
            v.extend_from_slice(&[200 + other; 32]);
        }
    }
    v
}

fn justification(round: u64, ids: &[u8]) -> Vec<u8> {
    let mut v = round.to_le_bytes().to_vec();
    v.extend_from_slice(&[7u8; 32]);
    v.extend_from_slice(&100u32.to_le_bytes());
    v.push((ids.len() as u8) << 2);
    for &i in ids {
        v.extend_from_slice(&[7u8; 32]);
        v.extend_from_slice(&100u32.to_le_bytes());
        v.extend_from_slice(&[9u8; 64]);
        v.extend_from_slice(&[i; 32]);
    }
    v
}

fn set_of(pairs: &[(u8, u8)]) -> ValidatorSet {
    ValidatorSet::decode::<PolkadotSessionKeys>(&polkadot_queue(pairs)).unwrap()
}

#[test]
fn two_of_three_voted() {
    let mut t = VoteTally::new();
    t.on_validator_set_change(&set_of(&[(1, 11), (2, 12), (3, 13)]));
    let j = t.on_justification(&justification(4, &[11, 13])).unwrap();
    assert_eq!(j.round, 4);
    assert_eq!(t.total(), 3);
    assert_eq!(t.voted(), 2);
    assert_eq!(t.votes_of(&id(11)), Some(1));
    assert_eq!(t.votes_of(&id(12)), Some(0));
    assert_eq!(t.votes_of(&id(13)), Some(1));
    assert_eq!(t.report(Visibility::All), vec![(id(1), 1), (id(2), 0), (id(3), 1)]);
    assert_eq!(t.report(Visibility::Voted), vec![(id(1), 1), (id(3), 1)]);
    assert_eq!(t.report(Visibility::Unvoted), vec![(id(2), 0)]);
}

#[test]
fn unknown_precommits_are_ignored_and_repeats_count() {
    let mut t = VoteTally::new();
    t.on_validator_set_change(&set_of(&[(1, 11), (2, 12)]));
    t.on_justification(&justification(1, &[11, 99, 11])).unwrap();
    t.on_justification(&justification(2, &[11])).unwrap();
    assert_eq!(t.votes_of(&id(11)), Some(3));
    assert_eq!(t.votes_of(&id(12)), Some(0));
    assert_eq!(t.votes_of(&id(99)), None);
    assert_eq!(t.total(), 2);
    assert_eq!(t.voted(), 1);
}

#[test]
fn set_change_replaces_everything() {
    let mut t = VoteTally::new();
    t.on_validator_set_change(&set_of(&[(1, 11), (2, 12)]));
    t.on_justification(&justification(1, &[11, 12])).unwrap();
    t.on_validator_set_change(&set_of(&[(2, 12), (3, 13)]));
    assert_eq!(t.votes_of(&id(11)), None);
    assert_eq!(t.votes_of(&id(12)), Some(0));
    assert_eq!(t.votes_of(&id(13)), Some(0));
    assert_eq!(t.total(), 2);
    assert_eq!(t.voted(), 0);
    for e in t.entries() {
        assert_ne!(e.authority, id(11));
    }
}

#[test]
fn repeated_key_keeps_last_stash() {
    let mut t = VoteTally::new();
    t.on_validator_set_change(&set_of(&[(1, 11), (2, 11)]));
    assert_eq!(t.total(), 1);
    assert_eq!(t.entries()[0].stash, id(2));
}

#[test]
fn bad_justification_leaves_tally() {
    let mut t = VoteTally::new();
    t.on_validator_set_change(&set_of(&[(1, 11), (2, 12)]));
    t.on_justification(&justification(1, &[11])).unwrap();
    let full = justification(2, &[11, 12]);
    assert_eq!(t.on_justification(&full[..full.len() - 1]).err(), Some(DecodeError::Truncated));
    assert_eq!(t.votes_of(&id(11)), Some(1));
    assert_eq!(t.votes_of(&id(12)), Some(0));
}

#[test]
fn bad_queue_keeps_validator_set() {
    let mut s = set_of(&[(1, 11)]);
    let q = polkadot_queue(&[(2, 12), (3, 13)]);
    assert_eq!(s.replace::<PolkadotSessionKeys>(&q[..100]).err(), Some(DecodeError::Truncated));
    assert_eq!(s.len(), 1);
    assert_eq!(s.stash_of(&id(11)), Some(id(1)));
    assert_eq!(s.replace::<PolkadotSessionKeys>(&q), Ok(()));
    assert_eq!(s.len(), 2);
    assert_eq!(s.stash_of(&id(11)), None);
    assert_eq!(s.stash_of(&id(13)), Some(id(3)));
}

#[test]
fn decode_then_tally_from_raw_bytes() {
    let raw = justification(8, &[12]);
    let j = decode_justification(&raw).unwrap();
    let mut t = VoteTally::new();
    t.on_validator_set_change(&set_of(&[(1, 11), (2, 12)]));
    t.record_precommits(&j);
    assert_eq!(t.report(Visibility::Voted), vec![(id(2), 1)]);
}

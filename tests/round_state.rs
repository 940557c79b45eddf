use grandma::address::encode_address;
use grandma::primitives::{AccountId, DecodeError};
use grandma::round_state::{decode_addresses, resolve_round_state, round_state_snapshot, Phase, Resolution, RoundState};
use grandma::session_keys::PolkadotSessionKeys;
use grandma::validators::ValidatorSet;

fn id(b: u8) -> AccountId {
    AccountId([b; 32])
}

fn polkadot_queue(pairs: &[(u8, u8)]) -> Vec<u8> {
    let mut v = vec![(pairs.len() as u8) << 2];
    for &(stash, grandpa) in pairs {
        v.extend_from_slice(&[stash; 32]);
        v.extend_from_slice(&[grandpa; 32]);
        for other in 0..5u8 {
            v.extend_from_slice(&[200 + other; 32]);
        }
    }
    v
}

fn state() -> RoundState {
    RoundState {
        round: 12,
        total_weight: 3,
        threshold_weight: 3,
        prevotes: Phase { current_weight: 2, missing: vec![id(12)] },
        precommits: Phase { current_weight: 1, missing: vec![id(13), id(77)] },
    }
}

fn is_stash(r: &Resolution, b: u8) -> bool {
    matches!(r, Resolution::Stash(a) if *a == id(b))
}

fn is_unknown(r: &Resolution, b: u8) -> bool {
    matches!(r, Resolution::Unknown(a) if *a == id(b))
}

#[test]
fn unknown_missing_voter_is_reported() {
    let q = polkadot_queue(&[(1, 11), (2, 12), (3, 13)]);
    let rep = round_state_snapshot::<PolkadotSessionKeys>(&q, &state()).unwrap();
    assert_eq!(rep.round, 12);
    assert_eq!(rep.total_weight, 3);
    assert_eq!(rep.threshold_weight, 3);
    assert_eq!(rep.prevotes.current_weight, 2);
    assert_eq!(rep.precommits.current_weight, 1);
    assert_eq!(rep.prevotes.missing.len(), 1);
    assert!(is_stash(&rep.prevotes.missing[0], 2));
    assert_eq!(rep.precommits.missing.len(), 2);
    assert!(is_stash(&rep.precommits.missing[0], 3));
    assert!(is_unknown(&rep.precommits.missing[1], 77));
}

#[test]
fn unknown_prevote_is_reported_too() {
    let set = ValidatorSet::new();
    let rep = resolve_round_state(&set, &state());
    assert!(is_unknown(&rep.prevotes.missing[0], 12));
    assert!(is_unknown(&rep.precommits.missing[0], 13));
}

#[test]
fn snapshot_fails_on_bad_queue() {
    let q = polkadot_queue(&[(1, 11)]);
    assert_eq!(
        round_state_snapshot::<PolkadotSessionKeys>(&q[..40], &state()).err(),
        Some(DecodeError::Truncated)
    );
}

#[test]
fn missing_voters_from_addresses() {
    let texts = vec![encode_address(&id(5), 42), encode_address(&id(6), 0)];
    assert_eq!(decode_addresses(&texts), Ok(vec![id(5), id(6)]));
    let bad = vec![encode_address(&id(5), 42), "nope0".to_string()];
    assert!(decode_addresses(&bad).is_err());
}

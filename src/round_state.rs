//! A one-shot report on the round in progress: weights, and who has not yet
//! voted in each phase, resolved to stashes through the validator set.
use vstd::prelude::*;

use crate::address::{address_key, address_text_valid, decode_address};
use crate::primitives::{AccountId, AddressFormatError, DecodeError};
use crate::session_keys::{queue_ok, SessionKeys};
use crate::validators::{lemma_stash_for_some, names_key, queue_pairs, stash_for, ValidatorSet};

verus! {

/// One phase of a round as the node reports it.
#[derive(Debug)]
pub struct Phase {
    pub current_weight: u64,
    pub missing: Vec<AccountId>,
}

/// The round in progress as the node reports it.
#[derive(Debug)]
pub struct RoundState {
    pub round: u64,
    pub total_weight: u64,
    pub threshold_weight: u64,
    pub prevotes: Phase,
    pub precommits: Phase,
}

/// A missing voter: the stash it resolves to, or its own key when the
/// validator set does not name it.
#[derive(Clone, Copy, Debug)]
pub enum Resolution {
    Stash(AccountId),
    Unknown(AccountId),
}

/// A phase with its missing voters resolved.
#[derive(Debug)]
pub struct PhaseReport {
    pub current_weight: u64,
    pub missing: Vec<Resolution>,
}

/// The round with its missing voters resolved.
#[derive(Debug)]
pub struct RoundReport {
    pub round: u64,
    pub total_weight: u64,
    pub threshold_weight: u64,
    pub prevotes: PhaseReport,
    pub precommits: PhaseReport,
}

/// `r` is how `id` resolves in `set`.
pub open spec fn resolves_as(set: Seq<(Seq<u8>, Seq<u8>)>, id: Seq<u8>, r: Resolution) -> bool {
    match stash_for(set, id) {
        Some(s) => match r {
            Resolution::Stash(a) => a@ == s,
            Resolution::Unknown(_) => false,
        },
        None => match r {
            Resolution::Stash(_) => false,
            Resolution::Unknown(a) => a@ == id,
        },
    }
}

/// `out` is `p` with each missing voter resolved in `set`.
pub open spec fn phase_resolved(set: Seq<(Seq<u8>, Seq<u8>)>, p: Phase, out: PhaseReport) -> bool {
    &&& out.current_weight == p.current_weight
    &&& out.missing@.len() == p.missing@.len()
    &&& forall|i: int|
        0 <= i < p.missing@.len() ==> resolves_as(set, p.missing@[i]@, #[trigger] out.missing@[i])
}

/// `out` is `s` with each missing voter resolved in `set`.
pub open spec fn round_resolved(
    set: Seq<(Seq<u8>, Seq<u8>)>,
    s: RoundState,
    out: RoundReport,
) -> bool {
    &&& out.round == s.round
    &&& out.total_weight == s.total_weight
    &&& out.threshold_weight == s.threshold_weight
    &&& phase_resolved(set, s.prevotes, out.prevotes)
    &&& phase_resolved(set, s.precommits, out.precommits)
}

/// A missing precommit voter that the validator set does not name is
/// reported as unknown, under its own key.
pub proof fn lemma_unknown_voter_reported(
    set: Seq<(Seq<u8>, Seq<u8>)>,
    s: RoundState,
    out: RoundReport,
    i: int,
)
    requires
        round_resolved(set, s, out),
        0 <= i < s.precommits.missing@.len(),
        !names_key(set, s.precommits.missing@[i]@),
    ensures
        out.precommits.missing@[i] matches Resolution::Unknown(a) && a@ == s.precommits.missing@[i]@,
{
    lemma_stash_for_some(set, s.precommits.missing@[i]@);
    assert(resolves_as(set, s.precommits.missing@[i]@, out.precommits.missing@[i]));
}

/// Resolves one voter.
pub fn resolve(set: &ValidatorSet, id: &AccountId) -> (r: Resolution)
    ensures
        resolves_as(set@, id@, r),
{
    match set.stash_of(id) {
        Some(s) => Resolution::Stash(s),
        None => Resolution::Unknown(*id),
    }
}

fn resolve_phase(set: &ValidatorSet, p: &Phase) -> (r: PhaseReport)
    ensures
        phase_resolved(set@, *p, r),
{
    let mut missing: Vec<Resolution> = Vec::new();
    let mut i: usize = 0;
    while i < p.missing.len()
        invariant
            i <= p.missing@.len(),
            missing@.len() == i,
            forall|j: int| 0 <= j < i ==> resolves_as(set@, p.missing@[j]@, #[trigger] missing@[j]),
        decreases p.missing@.len() - i,
    {
        let r = resolve(set, &p.missing[i]);
        missing.push(r);
        i = i + 1;
    }
    PhaseReport { current_weight: p.current_weight, missing }
}

/// Resolves the missing voters of both phases through `set`. A voter the set
/// does not name is reported as unknown.
pub fn resolve_round_state(set: &ValidatorSet, state: &RoundState) -> (r: RoundReport)
    ensures
        round_resolved(set@, *state, r),
{
    let prevotes = resolve_phase(set, &state.prevotes);
    let precommits = resolve_phase(set, &state.precommits);
    RoundReport {
        round: state.round,
        total_weight: state.total_weight,
        threshold_weight: state.threshold_weight,
        prevotes,
        precommits,
    }
}

/// The report on a round, given the encoded validator queue. A queue that
/// does not decode fails the whole report.
pub fn round_state_snapshot<SK: SessionKeys>(queued: &[u8], state: &RoundState) -> (r: Result<
    RoundReport,
    DecodeError,
>)
    ensures
        r is Ok <==> queue_ok::<SK>(queued@),
        r matches Ok(rep) ==> round_resolved(queue_pairs::<SK>(queued@), *state, rep),
{
    match ValidatorSet::decode::<SK>(queued) {
        Ok(set) => Ok(resolve_round_state(&set, state)),
        Err(e) => Err(e),
    }
}

/// Decodes the addresses of missing voters; any one that does not decode
/// fails the whole list.
pub fn decode_addresses(texts: &Vec<String>) -> (r: Result<Vec<AccountId>, AddressFormatError>)
    ensures
        r is Ok <==> forall|i: int|
            0 <= i < texts@.len() ==> address_text_valid(#[trigger] texts@[i]@),
        r matches Ok(ids) ==> ids@.len() == texts@.len() && forall|i: int|
            0 <= i < ids@.len() ==> (#[trigger] ids@[i])@ == address_key(texts@[i]@),
{
    let mut ids: Vec<AccountId> = Vec::new();
    let mut i: usize = 0;
    while i < texts.len()
        invariant
            i <= texts@.len(),
            ids@.len() == i,
            forall|j: int| 0 <= j < i ==> address_text_valid(#[trigger] texts@[j]@),
            forall|j: int|
                0 <= j < i ==> (#[trigger] ids@[j])@ == address_key(texts@[j]@),
        decreases texts@.len() - i,
    {
        match decode_address(texts[i].as_str()) {
            Ok(id) => {
                ids.push(id);
            },
            Err(e) => {
                return Err(e);
            },
        }
        i = i + 1;
    }
    Ok(ids)
}

} // verus!

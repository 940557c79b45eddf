//! Finality justifications: a round number and the commit whose signed
//! precommits finalised a block.
use vstd::prelude::*;

use crate::codec::{
    bytes_at, compact_u32_at, le_u32, le_u64, read_array, read_compact_u32, read_u32, read_u64,
};
use crate::primitives::{AccountId, DecodeError, Signature};
use crate::session_keys::lemma_compact_prefix;

verus! {

/// Block numbers.
pub type BlockNumber = u32;

/// A vote for a block.
#[derive(Debug)]
pub struct Precommit {
    pub target_hash: crate::primitives::Hash,
    pub target_number: BlockNumber,
}

/// A vote, its signature and the authority that cast it.
#[derive(Debug)]
pub struct SignedPrecommit {
    pub precommit: Precommit,
    pub signature: Signature,
    pub id: AccountId,
}

/// The target block and the votes that finalised it.
#[derive(Debug)]
pub struct Commit {
    pub target_hash: crate::primitives::Hash,
    pub target_number: BlockNumber,
    pub precommits: Vec<SignedPrecommit>,
}

/// A round number and its commit.
#[derive(Debug)]
pub struct GrandpaJustification {
    pub round: u64,
    pub commit: Commit,
}

/// Bytes taken by one signed precommit: hash, number, signature, id.
pub open spec fn precommit_len() -> int {
    132
}

/// Where the precommit count sits: after round, hash and number.
pub open spec fn count_pos() -> int {
    44
}

/// Where the `i`-th signed precommit begins, when they start at `p0`.
pub open spec fn precommit_at(p0: int, i: int) -> int {
    p0 + i * precommit_len()
}

/// The buffer holds a whole justification.
pub open spec fn justification_ok(d: Seq<u8>) -> bool {
    d.len() >= count_pos() && match compact_u32_at(d, count_pos()) {
        Some((n, p0)) => precommit_at(p0, n as int) <= d.len(),
        None => false,
    }
}

/// The length prefix of the precommits is missing or not a valid compact
/// integer, while the fixed fields before it are there.
pub open spec fn justification_bad_count(d: Seq<u8>) -> bool {
    d.len() >= count_pos() && compact_u32_at(d, count_pos()) is None
}

/// `p` is the signed precommit that `d` holds at `s`.
pub open spec fn precommit_matches(d: Seq<u8>, s: int, p: SignedPrecommit) -> bool {
    &&& p.precommit.target_hash@ == bytes_at(d, s, 32)
    &&& p.precommit.target_number as int == le_u32(d, s + 32)
    &&& p.signature@ == bytes_at(d, s + 36, 64)
    &&& p.id@ == bytes_at(d, s + 100, 32)
}

/// `j` is what a buffer for which `justification_ok` holds encodes.
pub open spec fn justification_matches(d: Seq<u8>, j: GrandpaJustification) -> bool {
    let (n, p0) = compact_u32_at(d, count_pos()).unwrap();
    &&& j.round as int == le_u64(d, 0)
    &&& j.commit.target_hash@ == bytes_at(d, 8, 32)
    &&& j.commit.target_number as int == le_u32(d, 40)
    &&& j.commit.precommits@.len() == n
    &&& forall|i: int|
        0 <= i < n ==> precommit_matches(
            d,
            precommit_at(p0 as int, i),
            #[trigger] j.commit.precommits@[i],
        )
}

/// The number of bytes that a justification with a valid length prefix
/// declares.
pub open spec fn justification_size(d: Seq<u8>) -> int {
    let (n, p0) = compact_u32_at(d, count_pos()).unwrap();
    precommit_at(p0 as int, n as int)
}

/// A justification cut short of what it declares does not decode.
pub proof fn lemma_truncated_justification_fails(d: Seq<u8>, m: int)
    requires
        justification_ok(d),
        0 <= m < justification_size(d),
    ensures
        !justification_ok(d.take(m)),
{
    if m >= count_pos() {
        lemma_compact_prefix(d, m, count_pos());
    }
}

/// Decoding is a function of the bytes: two justifications that one buffer
/// encodes have the same round and the same precommit authorities.
pub proof fn lemma_justification_deterministic(
    d: Seq<u8>,
    j1: GrandpaJustification,
    j2: GrandpaJustification,
)
    requires
        justification_matches(d, j1),
        justification_matches(d, j2),
    ensures
        j1.round == j2.round,
        precommit_ids(j1) == precommit_ids(j2),
{
    let (n, p0) = compact_u32_at(d, count_pos()).unwrap();
    assert forall|i: int| 0 <= i < n implies #[trigger] precommit_ids(j1)[i] == precommit_ids(
        j2,
    )[i] by {
        assert(precommit_matches(d, precommit_at(p0 as int, i), j1.commit.precommits@[i]));
        assert(precommit_matches(d, precommit_at(p0 as int, i), j2.commit.precommits@[i]));
    }
    assert(precommit_ids(j1) =~= precommit_ids(j2));
}

/// The authority ids of the precommits, in order.
pub open spec fn precommit_ids(j: GrandpaJustification) -> Seq<Seq<u8>> {
    j.commit.precommits@.map_values(|p: SignedPrecommit| p.id@)
}

proof fn lemma_precommit_step(p0: int, i: int, n: int)
    requires
        0 <= i < n,
    ensures
        precommit_at(p0, i + 1) == precommit_at(p0, i) + 132,
        precommit_at(p0, i + 1) <= precommit_at(p0, n),
{
    assert((i + 1) * 132 == i * 132 + 132);
    assert((i + 1) * 132 <= n * 132) by (nonlinear_arith)
        requires
            i + 1 <= n,
    ;
}

fn read_signed_precommit(data: &[u8], pos: usize) -> (r: Option<(SignedPrecommit, usize)>)
    ensures
        match r {
            Some((p, q)) => q == pos + 132 && q <= data@.len() && precommit_matches(
                data@,
                pos as int,
                p,
            ),
            None => pos + 132 > data@.len(),
        },
{
    let (h, q) = read_array::<32>(data, pos)?;
    let (number, q) = read_u32(data, q)?;
    let (sig, q) = read_array::<64>(data, q)?;
    let (id, q) = read_array::<32>(data, q)?;
    Some(
        (
            SignedPrecommit {
                precommit: Precommit { target_hash: crate::primitives::Hash(h), target_number: number },
                signature: Signature(sig),
                id: AccountId(id),
            },
            q,
        ),
    )
}

/// Decodes a justification: the round (`u64`), the target hash and number,
/// then the compact-length-prefixed signed precommits. Bytes after the last
/// precommit are ignored.
pub fn decode_justification(data: &[u8]) -> (r: Result<GrandpaJustification, DecodeError>)
    ensures
        r is Ok <==> justification_ok(data@),
        r matches Ok(j) ==> justification_matches(data@, j),
        r == Err::<GrandpaJustification, DecodeError>(DecodeError::BadLength)
            <==> justification_bad_count(data@),
        r == Err::<GrandpaJustification, DecodeError>(DecodeError::Truncated) <==> (
        !justification_ok(data@) && !justification_bad_count(data@)),
{
    if data.len() < 44 {
        return Err(DecodeError::Truncated);
    }
    let (round, q) = match read_u64(data, 0) {
        Some(x) => x,
        None => {
            return Err(DecodeError::Truncated);
        },
    };
    let (h, q) = match read_array::<32>(data, q) {
        Some(x) => x,
        None => {
            return Err(DecodeError::Truncated);
        },
    };
    let (number, q) = match read_u32(data, q) {
        Some(x) => x,
        None => {
            return Err(DecodeError::Truncated);
        },
    };
    let (n, p0) = match read_compact_u32(data, q) {
        Some(x) => x,
        None => {
            return Err(DecodeError::BadLength);
        },
    };
    let mut precommits: Vec<SignedPrecommit> = Vec::new();
    let mut pos: usize = p0;
    let mut i: u32 = 0;
    while i < n
        invariant
            compact_u32_at(data@, 44) == Some((n, p0 as int)),
            i <= n,
            pos == precommit_at(p0 as int, i as int),
            pos <= data@.len(),
            precommits@.len() == i,
            forall|j: int|
                0 <= j < i ==> precommit_matches(
                    data@,
                    precommit_at(p0 as int, j),
                    #[trigger] precommits@[j],
                ),
        decreases n - i,
    {
        proof {
            lemma_precommit_step(p0 as int, i as int, n as int);
        }
        let (p, q) = match read_signed_precommit(data, pos) {
            Some(x) => x,
            None => {
                return Err(DecodeError::Truncated);
            },
        };
        precommits.push(p);
        pos = q;
        i = i + 1;
    }
    let j = GrandpaJustification {
        round,
        commit: Commit { target_hash: crate::primitives::Hash(h), target_number: number, precommits },
    };
    Ok(j)
}

} // verus!

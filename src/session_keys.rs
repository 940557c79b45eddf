//! Session-key records: the role keys a stash has bound for a session, in the
//! field order of a given deployment, and the queue of `(stash, keys)` pairs.
use vstd::prelude::*;

use crate::codec::{bytes_at, compact_u32_at, read_array, read_compact_u32};
use crate::primitives::{AccountId, DecodeError};

verus! {

/// The `n` consecutive 32-byte keys of `d` from `p`.
pub open spec fn key_chunks(d: Seq<u8>, p: int, n: nat) -> Seq<Seq<u8>> {
    Seq::new(n, |j: int| bytes_at(d, p + 32 * j, 32))
}

/// A session-key layout: a fixed number of 32-byte role keys, one of which is
/// the block-finality key.
pub trait SessionKeys: Sized {
    /// How many keys a record holds.
    spec fn key_count() -> nat;

    /// Where the block-finality key stands among the keys.
    spec fn grandpa_index() -> nat;

    /// The keys, in wire order.
    spec fn keys(&self) -> Seq<Seq<u8>>;

    /// The block-finality key.
    fn grandpa(&self) -> (r: &AccountId)
        ensures
            r@ == self.keys()[Self::grandpa_index() as int],
    ;

    /// Decodes one record at `pos`: its keys, verbatim and in order.
    fn decode_at(data: &[u8], pos: usize) -> (r: Option<(Self, usize)>)
        ensures
            match r {
                Some((k, q)) => q == pos + 32 * Self::key_count() && q <= data@.len() && k.keys()
                    == key_chunks(data@, pos as int, Self::key_count()),
                None => pos + 32 * Self::key_count() > data@.len(),
            },
    ;
}

/// Reads one key of a record.
fn read_key(data: &[u8], pos: usize) -> (r: Option<(AccountId, usize)>)
    ensures
        match r {
            Some((k, q)) => q == pos + 32 && q <= data@.len() && k@ == bytes_at(
                data@,
                pos as int,
                32,
            ),
            None => pos + 32 > data@.len(),
        },
{
    match read_array::<32>(data, pos) {
        Some((a, q)) => Some((AccountId(a), q)),
        None => None,
    }
}

/// Session keys of the relay-chain layout.
#[derive(Debug)]
pub struct PolkadotSessionKeys {
    pub grandpa: AccountId,
    pub babe: AccountId,
    pub im_online: AccountId,
    pub para_validator: AccountId,
    pub para_assignment: AccountId,
    pub authority_discovery: AccountId,
}

impl SessionKeys for PolkadotSessionKeys {
    open spec fn key_count() -> nat {
        6
    }

    open spec fn grandpa_index() -> nat {
        0
    }

    open spec fn keys(&self) -> Seq<Seq<u8>> {
        seq![
            self.grandpa@,
            self.babe@,
            self.im_online@,
            self.para_validator@,
            self.para_assignment@,
            self.authority_discovery@,
        ]
    }

    fn grandpa(&self) -> (r: &AccountId) {
        &self.grandpa
    }

    fn decode_at(data: &[u8], pos: usize) -> (r: Option<(Self, usize)>) {
        let (grandpa, p) = read_key(data, pos)?;
        let (babe, p) = read_key(data, p)?;
        let (im_online, p) = read_key(data, p)?;
        let (para_validator, p) = read_key(data, p)?;
        let (para_assignment, p) = read_key(data, p)?;
        let (authority_discovery, p) = read_key(data, p)?;
        let k = PolkadotSessionKeys {
            grandpa,
            babe,
            im_online,
            para_validator,
            para_assignment,
            authority_discovery,
        };
        assert(k.keys() =~= key_chunks(data@, pos as int, 6));
        Some((k, p))
    }
}

/// Session keys of the Darwinia layout.
#[derive(Debug)]
pub struct DarwiniaSessionKeys {
    pub babe: AccountId,
    pub grandpa: AccountId,
    pub im_online: AccountId,
    pub authority_discovery: AccountId,
}

impl SessionKeys for DarwiniaSessionKeys {
    open spec fn key_count() -> nat {
        4
    }

    open spec fn grandpa_index() -> nat {
        1
    }

    open spec fn keys(&self) -> Seq<Seq<u8>> {
        seq![self.babe@, self.grandpa@, self.im_online@, self.authority_discovery@]
    }

    fn grandpa(&self) -> (r: &AccountId) {
        &self.grandpa
    }

    fn decode_at(data: &[u8], pos: usize) -> (r: Option<(Self, usize)>) {
        let (babe, p) = read_key(data, pos)?;
        let (grandpa, p) = read_key(data, p)?;
        let (im_online, p) = read_key(data, p)?;
        let (authority_discovery, p) = read_key(data, p)?;
        let k = DarwiniaSessionKeys { babe, grandpa, im_online, authority_discovery };
        assert(k.keys() =~= key_chunks(data@, pos as int, 4));
        Some((k, p))
    }
}

/// Bytes taken by one `(stash, keys)` pair.
pub open spec fn entry_len<SK: SessionKeys>() -> int {
    (32 + 32 * SK::key_count()) as int
}

/// Where the `i`-th pair of a queue whose items start at `p0` begins.
pub open spec fn entry_at<SK: SessionKeys>(p0: int, i: int) -> int {
    p0 + i * entry_len::<SK>()
}

/// The length prefix of a queue decodes.
pub open spec fn queue_header_ok(d: Seq<u8>) -> bool {
    compact_u32_at(d, 0) is Some
}

/// The buffer holds a whole queue: the length prefix and that many pairs.
pub open spec fn queue_ok<SK: SessionKeys>(d: Seq<u8>) -> bool {
    match compact_u32_at(d, 0) {
        Some((n, p0)) => entry_at::<SK>(p0, n as int) <= d.len(),
        None => false,
    }
}

/// The `i`-th pair of a queue that decodes, as (stash, keys).
pub open spec fn queue_entry<SK: SessionKeys>(d: Seq<u8>, i: int) -> (Seq<u8>, Seq<Seq<u8>>) {
    let p0 = compact_u32_at(d, 0).unwrap().1;
    let s = entry_at::<SK>(p0, i);
    (bytes_at(d, s, 32), key_chunks(d, s + 32, SK::key_count()))
}

/// Number of pairs that the length prefix declares.
pub open spec fn queue_len(d: Seq<u8>) -> int {
    compact_u32_at(d, 0).unwrap().0 as int
}

proof fn lemma_entry_step<SK: SessionKeys>(p0: int, i: int)
    ensures
        entry_at::<SK>(p0, i + 1) == entry_at::<SK>(p0, i) + entry_len::<SK>(),
{
    let e = entry_len::<SK>();
    assert((i + 1) * e == i * e + e) by (nonlinear_arith);
}

proof fn lemma_entry_mono<SK: SessionKeys>(p0: int, i: int, n: int)
    requires
        0 <= i <= n,
    ensures
        entry_at::<SK>(p0, i) <= entry_at::<SK>(p0, n),
{
    let e = entry_len::<SK>();
    assert(e >= 32);
    assert(i * e <= n * e) by (nonlinear_arith)
        requires
            0 <= i <= n,
            e >= 0,
    ;
}

/// Decodes the queue of `(stash, keys)` pairs.
///
/// Fails with `BadLength` when the length prefix is not a valid compact
/// integer, and with `Truncated` when the buffer ends before the last pair.
/// Bytes after the last pair are ignored.
pub fn decode_queued_keys<SK: SessionKeys>(data: &[u8]) -> (r: Result<
    Vec<(AccountId, SK)>,
    DecodeError,
>)
    ensures
        r == Err::<Vec<(AccountId, SK)>, DecodeError>(DecodeError::BadLength) <==> !queue_header_ok(
            data@,
        ),
        r == Err::<Vec<(AccountId, SK)>, DecodeError>(DecodeError::Truncated) <==> (
        queue_header_ok(data@) && !queue_ok::<SK>(data@)),
        r is Ok <==> queue_ok::<SK>(data@),
        r matches Ok(v) ==> queue_decoded_as(data@, v@),
{
    let (n, p0) = match read_compact_u32(data, 0) {
        Some(x) => x,
        None => {
            return Err(DecodeError::BadLength);
        },
    };
    let mut out: Vec<(AccountId, SK)> = Vec::new();
    let mut pos: usize = p0;
    let mut i: u32 = 0;
    while i < n
        invariant
            compact_u32_at(data@, 0) == Some((n, p0 as int)),
            i <= n,
            pos == entry_at::<SK>(p0 as int, i as int),
            pos <= data@.len(),
            out@.len() == i,
            forall|j: int|
                0 <= j < i ==> (#[trigger] out@[j]).0@ == queue_entry::<SK>(data@, j).0
                    && out@[j].1.keys() == queue_entry::<SK>(data@, j).1,
        decreases n - i,
    {
        proof {
            lemma_entry_step::<SK>(p0 as int, i as int);
            lemma_entry_mono::<SK>(p0 as int, i + 1, n as int);
        }
        let (stash, q) = match read_key(data, pos) {
            Some(x) => x,
            None => {
                return Err(DecodeError::Truncated);
            },
        };
        let (keys, q2) = match SK::decode_at(data, q) {
            Some(x) => x,
            None => {
                return Err(DecodeError::Truncated);
            },
        };
        out.push((stash, keys));
        pos = q2;
        i = i + 1;
    }
    Ok(out)
}

/// `v` holds, in order, the pairs of the queue that `d` encodes.
pub open spec fn queue_decoded_as<SK: SessionKeys>(d: Seq<u8>, v: Seq<(AccountId, SK)>) -> bool {
    &&& v.len() == queue_len(d)
    &&& forall|i: int|
        0 <= i < v.len() ==> (#[trigger] v[i]).0@ == queue_entry::<SK>(d, i).0 && v[i].1.keys()
            == queue_entry::<SK>(d, i).1
}

/// Decoding is a function of the bytes: two decodings of one buffer hold
/// the same stashes and the same keys, in the same order.
pub proof fn lemma_queue_decode_deterministic<SK: SessionKeys>(
    d: Seq<u8>,
    v1: Seq<(AccountId, SK)>,
    v2: Seq<(AccountId, SK)>,
)
    requires
        queue_decoded_as(d, v1),
        queue_decoded_as(d, v2),
    ensures
        v1.len() == v2.len(),
        forall|i: int|
            0 <= i < v1.len() ==> (#[trigger] v1[i]).0@ == v2[i].0@ && v1[i].1.keys()
                == v2[i].1.keys(),
{
    assert forall|i: int| 0 <= i < v1.len() implies (#[trigger] v1[i]).0@ == v2[i].0@
        && v1[i].1.keys() == v2[i].1.keys() by {
        assert(v2[i].0@ == queue_entry::<SK>(d, i).0);
    }
}

/// The number of bytes that a queue with a valid length prefix declares.
pub open spec fn queue_size<SK: SessionKeys>(d: Seq<u8>) -> int {
    let (n, p0) = compact_u32_at(d, 0).unwrap();
    entry_at::<SK>(p0, n as int)
}

/// A compact integer read from a prefix of a buffer is the one the whole
/// buffer holds there.
pub proof fn lemma_compact_prefix(d: Seq<u8>, m: int, p: int)
    requires
        0 <= m <= d.len(),
    ensures
        compact_u32_at(d.take(m), p) matches Some((v, q)) ==> compact_u32_at(d, p) == Some((v, q))
            && q <= m,
{
    let t = d.take(m);
    assert(forall|i: int| 0 <= i < m ==> t[i] == d[i]);
}

/// A buffer cut short of what its length prefix declares does not decode.
pub proof fn lemma_truncated_queue_fails<SK: SessionKeys>(d: Seq<u8>, m: int)
    requires
        queue_ok::<SK>(d),
        0 <= m < queue_size::<SK>(d),
    ensures
        !queue_ok::<SK>(d.take(m)),
{
    lemma_compact_prefix(d, m, 0);
}

} // verus!

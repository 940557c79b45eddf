//! Checksummed base-58 addresses: `[prefix][public key][checksum]`, where the
//! checksum is the first two bytes of the BLAKE2b-512 digest of `SS58PRE`,
//! the prefix and the key.
use vstd::prelude::*;

use crate::hashing::{blake2_512_of, checksum_hash};
use crate::primitives::{AccountId, AddressFormatError};

verus! {

/// The base-58 text of `data` (Bitcoin alphabet, one `1` per leading zero
/// byte).
pub uninterp spec fn base58_of(data: Seq<u8>) -> Seq<char>;

/// The bytes that a base-58 text spells, if it is one.
pub uninterp spec fn base58_decoded(s: Seq<char>) -> Option<Seq<u8>>;

/// Longest text that the decoder is handed; longer texts are refused.
pub const MAX_ADDRESS_CHARS: usize = 132;

/// Size of the decoded address: prefix, key and checksum.
pub const ADDRESS_BYTES: usize = 35;

/// The bytes `SS58PRE` that the checksum digest starts from.
pub open spec fn checksum_context() -> Seq<u8> {
    seq![83u8, 83u8, 53u8, 56u8, 80u8, 82u8, 69u8]
}

/// The two checksum bytes of a payload.
pub open spec fn checksum_of(payload: Seq<u8>) -> Seq<u8> {
    let d = blake2_512_of(checksum_context() + payload);
    seq![d[0], d[1]]
}

/// The 35 bytes of the address of `pk` under `prefix`.
pub open spec fn address_bytes(pk: Seq<u8>, prefix: u8) -> Seq<u8> {
    let payload = seq![prefix] + pk;
    payload + checksum_of(payload)
}

/// The address of `pk` under `prefix`.
pub open spec fn address_of(pk: Seq<u8>, prefix: u8) -> Seq<char> {
    base58_of(address_bytes(pk, prefix))
}

/// Decoded address bytes: right size, and the checksum matches.
pub open spec fn address_bytes_valid(b: Seq<u8>) -> bool {
    b.len() == 35 && b.subrange(33, 35) == checksum_of(b.subrange(0, 33))
}

/// A text the decoder takes, spelling valid address bytes.
pub open spec fn address_text_valid(s: Seq<char>) -> bool {
    s.len() <= MAX_ADDRESS_CHARS && match base58_decoded(s) {
        Some(b) => address_bytes_valid(b),
        None => false,
    }
}

/// The key that a valid address text holds.
pub open spec fn address_key(s: Seq<char>) -> Seq<u8> {
    base58_decoded(s).unwrap().subrange(1, 33)
}

/// A text the decoder takes, spelling bytes of the wrong size.
pub open spec fn address_text_misfit(s: Seq<char>) -> bool {
    s.len() <= MAX_ADDRESS_CHARS && match base58_decoded(s) {
        Some(b) => b.len() != 35,
        None => false,
    }
}

/// Changing either checksum byte of valid address bytes makes them invalid.
pub proof fn lemma_corrupted_checksum_rejected(b: Seq<u8>, i: int, x: u8)
    requires
        address_bytes_valid(b),
        33 <= i < 35,
        x != b[i],
    ensures
        !address_bytes_valid(b.update(i, x)),
{
    let c = b.update(i, x);
    assert(c.subrange(0, 33) =~= b.subrange(0, 33));
    assert(c.subrange(33, 35)[i - 33] == x);
    assert(b.subrange(33, 35)[i - 33] == b[i]);
}

/// Relies on base58's `ToBase58` for `[u8]`. Its source writes one `1` per
/// leading zero byte and at most `138 / 100` digits per remaining byte, plus
/// one.
#[verifier::external_body]
fn to_base58(b: &[u8]) -> (r: String)
    ensures
        r@ == base58_of(b@),
        r@.len() <= 2 * b@.len() + 1,
{
    base58::ToBase58::to_base58(b)
}

/// Relies on base58's `FromBase58` for `str`. Its source decodes into a
/// 132-byte buffer: on a text of at most 132 characters it returns, and on
/// the text that `ToBase58` wrote for at most 64 bytes it returns those bytes.
#[verifier::external_body]
fn from_base58(s: &str) -> (r: Option<Vec<u8>>)
    requires
        s@.len() <= 132,
    ensures
        match r {
            Some(v) => base58_decoded(s@) == Some(v@),
            None => base58_decoded(s@) is None,
        },
        forall|v: Seq<u8>|
            v.len() <= 64 && #[trigger] base58_of(v) == s@ ==> r is Some && r->0@ == v,
{
    base58::FromBase58::from_base58(s).ok()
}

/// `a` followed by `b`.
fn concat(a: &[u8], b: &[u8]) -> (r: Vec<u8>)
    ensures
        r@ == a@ + b@,
{
    let mut r: Vec<u8> = Vec::new();
    let mut i: usize = 0;
    while i < a.len()
        invariant
            i <= a@.len(),
            r@ == a@.subrange(0, i as int),
        decreases a@.len() - i,
    {
        r.push(a[i]);
        i = i + 1;
        assert(r@ =~= a@.subrange(0, i as int));
    }
    let mut j: usize = 0;
    while j < b.len()
        invariant
            j <= b@.len(),
            r@ == a@ + b@.subrange(0, j as int),
        decreases b@.len() - j,
    {
        r.push(b[j]);
        j = j + 1;
        assert(r@ =~= a@ + b@.subrange(0, j as int));
    }
    assert(b@.subrange(0, b@.len() as int) =~= b@);
    assert(a@.subrange(0, a@.len() as int) =~= a@);
    r
}

/// The digest that the checksum of `payload` is taken from.
fn checksum_digest(payload: &[u8]) -> (r: [u8; 64])
    ensures
        r@ == blake2_512_of(checksum_context() + payload@),
{
    let ctx: [u8; 7] = [83u8, 83u8, 53u8, 56u8, 80u8, 82u8, 69u8];
    assert(ctx@ =~= checksum_context());
    let pre = concat(&ctx, payload);
    checksum_hash(pre.as_slice())
}

/// Encodes `pk` as an address under the network `prefix`.
pub fn encode_address(pk: &AccountId, prefix: u8) -> (r: String)
    ensures
        r@ == address_of(pk@, prefix),
        r@.len() <= 2 * ADDRESS_BYTES + 1,
{
    let head: [u8; 1] = [prefix];
    assert(head@ =~= seq![prefix]);
    let payload = concat(&head, &pk.0);
    let digest = checksum_digest(payload.as_slice());
    let mut b = payload;
    b.push(digest[0]);
    b.push(digest[1]);
    assert(b@ =~= address_bytes(pk@, prefix));
    to_base58(b.as_slice())
}

/// Checks decoded address bytes against the digest of their first 33 bytes,
/// and returns the key they hold.
pub fn account_of_address_bytes(raw: &[u8], digest: &[u8; 64]) -> (r: Result<
    AccountId,
    AddressFormatError,
>)
    ensures
        raw@.len() != 35 ==> r == Err::<AccountId, AddressFormatError>(
            AddressFormatError::BadLength,
        ),
        raw@.len() == 35 ==> (r is Ok <==> raw@.subrange(33, 35) == digest@.subrange(0, 2)),
        raw@.len() == 35 && r is Err ==> r == Err::<AccountId, AddressFormatError>(
            AddressFormatError::BadChecksum,
        ),
        r matches Ok(id) ==> id@ == raw@.subrange(1, 33),
{
    if raw.len() != 35 {
        return Err(AddressFormatError::BadLength);
    }
    if raw[33] != digest[0] || raw[34] != digest[1] {
        assert(raw@.subrange(33, 35)[0] == raw@[33]);
        assert(raw@.subrange(33, 35)[1] == raw@[34]);
        return Err(AddressFormatError::BadChecksum);
    }
    assert(raw@.subrange(33, 35) =~= digest@.subrange(0, 2));
    let mut key: [u8; 32] = [0u8; 32];
    let mut i: usize = 0;
    while i < 32
        invariant
            raw@.len() == 35,
            i <= 32,
            forall|j: int| 0 <= j < i ==> key@[j] == raw@[1 + j],
        decreases 32 - i,
    {
        let b = raw[1 + i];
        key[i] = b;
        i = i + 1;
    }
    assert(key@ =~= raw@.subrange(1, 33));
    Ok(AccountId(key))
}

/// Where the base-58 decoder refused a text, no address spells it.
proof fn lemma_no_address_decodes(s: Seq<char>)
    requires
        forall|v: Seq<u8>| v.len() <= 64 && #[trigger] base58_of(v) == s ==> false,
    ensures
        forall|pk: Seq<u8>, prefix: u8| pk.len() == 32 ==> #[trigger] address_of(pk, prefix) != s,
{
    assert forall|pk: Seq<u8>, prefix: u8| pk.len() == 32 implies #[trigger] address_of(pk, prefix)
        != s by {
        assert(address_bytes(pk, prefix).len() == 35);
    }
}

/// Decodes an address to the key it holds.
///
/// Fails with `BadEncoding` when the text is over `MAX_ADDRESS_CHARS` or is
/// not base-58, with `BadLength` when it does not spell 35 bytes, and with
/// `BadChecksum` when the last two bytes are not the checksum of the others.
pub fn decode_address(s: &str) -> (r: Result<AccountId, AddressFormatError>)
    ensures
        r is Ok <==> address_text_valid(s@),
        r matches Ok(id) ==> id@ == address_key(s@),
        r == Err::<AccountId, AddressFormatError>(AddressFormatError::BadEncoding) <==> (s@.len()
            > MAX_ADDRESS_CHARS || base58_decoded(s@) is None),
        r == Err::<AccountId, AddressFormatError>(AddressFormatError::BadLength) <==> address_text_misfit(s@),
        forall|pk: Seq<u8>, prefix: u8|
            pk.len() == 32 && s@.len() <= MAX_ADDRESS_CHARS && #[trigger] address_of(pk, prefix)
                == s@ ==> (r matches Ok(id) && id@ == pk),
{
    if s.unicode_len() > MAX_ADDRESS_CHARS {
        return Err(AddressFormatError::BadEncoding);
    }
    let raw = match from_base58(s) {
        Some(v) => v,
        None => {
            proof {
                lemma_no_address_decodes(s@);
            }
            return Err(AddressFormatError::BadEncoding);
        },
    };
    if raw.len() != 35 {
        proof {
            assert forall|pk: Seq<u8>, prefix: u8|
                pk.len() == 32 && #[trigger] address_of(pk, prefix) == s@ implies false by {
                assert(address_bytes(pk, prefix).len() == 35);
            }
        }
        return Err(AddressFormatError::BadLength);
    }
    let payload = vstd::slice::slice_subrange(raw.as_slice(), 0, 33);
    let digest = checksum_digest(payload);
    assert(digest@.subrange(0, 2) =~= checksum_of(raw@.subrange(0, 33)));
    let r = account_of_address_bytes(raw.as_slice(), &digest);
    proof {
        assert forall|pk: Seq<u8>, prefix: u8|
            pk.len() == 32 && #[trigger] address_of(pk, prefix) == s@ implies r matches Ok(id)
                && id@ == pk by {
            let b = address_bytes(pk, prefix);
            assert(b.len() == 35);
            assert(raw@ == b);
            assert(b.subrange(0, 33) =~= seq![prefix] + pk);
            assert(b.subrange(33, 35) =~= checksum_of(seq![prefix] + pk));
            assert(b.subrange(1, 33) =~= pk);
        }
    }
    r
}

} // verus!

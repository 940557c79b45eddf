//! Storage-key derivation, checksum hashing and hex text.
use vstd::prelude::*;

use crate::primitives::DecodeError;

verus! {

/// The 128-bit storage hash: xxHash64 with seed 0 and with seed 1, each
/// written little-endian.
pub uninterp spec fn twox128_of(data: Seq<u8>) -> Seq<u8>;

/// The 512-bit BLAKE2b digest.
pub uninterp spec fn blake2_512_of(data: Seq<u8>) -> Seq<u8>;

/// Relies on substorager's `StorageHasher::Twox128`, which returns
/// subhasher's 16-byte `twox128` of the data.
#[verifier::external_body]
fn twox128(data: &[u8]) -> (r: Vec<u8>)
    ensures
        r@ == twox128_of(data@),
        r@.len() == 16,
{
    substorager::StorageHasher::Twox128.hash(data).0
}

/// Relies on subhasher's `blake2_512`: the 64-byte BLAKE2b digest.
#[verifier::external_body]
fn blake2_512(data: &[u8]) -> (r: [u8; 64])
    ensures
        r@ == blake2_512_of(data@),
{
    subhasher::blake2_512(data)
}

/// The storage hash of `data` (16 bytes).
pub fn storage_hash(data: &[u8]) -> (r: Vec<u8>)
    ensures
        r@ == twox128_of(data@),
        r@.len() == 16,
{
    twox128(data)
}

/// The checksum hash of `data` (64 bytes).
pub fn checksum_hash(data: &[u8]) -> (r: [u8; 64])
    ensures
        r@ == blake2_512_of(data@),
{
    blake2_512(data)
}

/// The key under which a module keeps an item.
pub open spec fn storage_key_of(module: Seq<u8>, item: Seq<u8>) -> Seq<u8> {
    twox128_of(module) + twox128_of(item)
}

/// The key depends on the two names alone, and starts with the storage hash
/// of the module.
pub proof fn lemma_storage_key_deterministic(m1: Seq<u8>, i1: Seq<u8>, m2: Seq<u8>, i2: Seq<u8>)
    requires
        m1 == m2,
        i1 == i2,
    ensures
        storage_key_of(m1, i1) == storage_key_of(m2, i2),
        storage_key_of(m1, i1).take(twox128_of(m1).len() as int) == twox128_of(m1),
{
    assert(storage_key_of(m1, i1).take(twox128_of(m1).len() as int) =~= twox128_of(m1));
}

/// Derives the 32-byte key of `item` in `module`: the storage hash of the
/// module name followed by that of the item name.
pub fn storage_key(module: &[u8], item: &[u8]) -> (r: Vec<u8>)
    ensures
        r@ == storage_key_of(module@, item@),
        r@.len() == 32,
{
    let mut k = twox128(module);
    let mut rest = twox128(item);
    k.append(&mut rest);
    k
}

/// The hex digit for `n < 16`, lowercase.
pub open spec fn hex_char(n: int) -> char {
    if n < 10 {
        (n + 48) as char
    } else {
        (n + 87) as char
    }
}

/// Two lowercase hex digits per byte, high nibble first.
pub open spec fn hex_of(b: Seq<u8>) -> Seq<char> {
    Seq::new(
        2 * b.len(),
        |i: int|
            if i % 2 == 0 {
                hex_char(b[i / 2] as int / 16)
            } else {
                hex_char(b[i / 2] as int % 16)
            },
    )
}

/// `0x` followed by the hex digits of `b`.
pub open spec fn hex_prefixed(b: Seq<u8>) -> Seq<char> {
    seq!['0', 'x'] + hex_of(b)
}

/// The value of a hex digit of either case.
pub open spec fn hex_value(c: char) -> Option<int> {
    if '0' <= c <= '9' {
        Some(c as int - 48)
    } else if 'a' <= c <= 'f' {
        Some(c as int - 87)
    } else if 'A' <= c <= 'F' {
        Some(c as int - 55)
    } else {
        None
    }
}

/// `s` without a leading `0x`, if it has one.
pub open spec fn strip_0x(s: Seq<char>) -> Seq<char> {
    if s.len() >= 2 && s[0] == '0' && s[1] == 'x' {
        s.subrange(2, s.len() as int)
    } else {
        s
    }
}

/// An even number of hex digits.
pub open spec fn is_hex_digits(h: Seq<char>) -> bool {
    h.len() % 2 == 0 && forall|i: int| 0 <= i < h.len() ==> (#[trigger] hex_value(h[i])) is Some
}

/// The bytes that pairs of hex digits spell.
pub open spec fn bytes_of_digits(h: Seq<char>) -> Seq<u8> {
    Seq::new(
        h.len() / 2,
        |i: int| (hex_value(h[2 * i]).unwrap() * 16 + hex_value(h[2 * i + 1]).unwrap()) as u8,
    )
}

/// The bytes of a hex text with an optional `0x` prefix, if it is one.
pub open spec fn bytes_of_hex(s: Seq<char>) -> Option<Seq<u8>> {
    if is_hex_digits(strip_0x(s)) {
        Some(bytes_of_digits(strip_0x(s)))
    } else {
        None
    }
}

/// Relies on array-bytes' `Dehexify` for `Vec<u8>`: it strips one leading
/// `0x`, refuses an odd number of digits or a character that is not a hex
/// digit, and turns each pair of digits of either case into a byte.
#[verifier::external_body]
fn dehexify(s: &str) -> (r: Option<Vec<u8>>)
    ensures
        match r {
            Some(v) => bytes_of_hex(s@) == Some(v@),
            None => bytes_of_hex(s@) is None,
        },
{
    <Vec<u8> as array_bytes::Dehexify>::dehexify(s).ok()
}

/// Relies on array-bytes' `Hexify::hexify_prefixed`: `0x`, then two lowercase
/// digits per byte.
#[verifier::external_body]
fn hexify_prefixed(b: &[u8]) -> (r: String)
    ensures
        r@ == hex_prefixed(b@),
{
    array_bytes::Hexify::hexify_prefixed(b)
}

/// Reads a hex payload, with or without its `0x` prefix.
pub fn decode_hex(s: &str) -> (r: Result<Vec<u8>, DecodeError>)
    ensures
        match r {
            Ok(v) => bytes_of_hex(s@) == Some(v@),
            Err(e) => bytes_of_hex(s@) is None && e == DecodeError::BadHex,
        },
{
    match dehexify(s) {
        Some(v) => Ok(v),
        None => Err(DecodeError::BadHex),
    }
}

/// Writes bytes as `0x`-prefixed lowercase hex.
pub fn encode_hex(b: &[u8]) -> (r: String)
    ensures
        r@ == hex_prefixed(b@),
{
    hexify_prefixed(b)
}

/// The storage key of `item` in `module`, as the hex text that queries take.
pub fn storage_key_hex(module: &[u8], item: &[u8]) -> (r: String)
    ensures
        r@ == hex_prefixed(storage_key_of(module@, item@)),
{
    let k = storage_key(module, item);
    hexify_prefixed(k.as_slice())
}

} // verus!

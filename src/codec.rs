//! The binary wire format: little-endian integers, verbatim byte arrays and
//! compact-length-prefixed sequences.
//!
//! Every reader takes the whole buffer and a cursor, and returns the value
//! with the cursor just past it, or `None` when the bytes do not hold it.
use vstd::prelude::*;

verus! {

/// Little-endian value of the four bytes of `d` at `p`.
pub open spec fn le_u32(d: Seq<u8>, p: int) -> int {
    d[p] as int + d[p + 1] as int * 0x100 + d[p + 2] as int * 0x10000 + d[p + 3] as int
        * 0x1000000
}

/// Little-endian value of the eight bytes of `d` at `p`.
pub open spec fn le_u64(d: Seq<u8>, p: int) -> int {
    le_u32(d, p) + le_u32(d, p + 4) * 0x100000000
}

/// A `u32` at `p`, and the cursor after it.
pub open spec fn u32_at(d: Seq<u8>, p: int) -> Option<(u32, int)> {
    if 0 <= p && p + 4 <= d.len() {
        Some((le_u32(d, p) as u32, p + 4))
    } else {
        None
    }
}

/// A `u64` at `p`, and the cursor after it.
pub open spec fn u64_at(d: Seq<u8>, p: int) -> Option<(u64, int)> {
    if 0 <= p && p + 8 <= d.len() {
        Some((le_u64(d, p) as u64, p + 8))
    } else {
        None
    }
}

/// The `n` bytes at `p`, taken verbatim.
pub open spec fn bytes_at(d: Seq<u8>, p: int, n: int) -> Seq<u8> {
    d.subrange(p, p + n)
}

/// A compact-encoded `u32` at `p`, and the cursor after it.
///
/// The two low bits of the first byte give the mode: one byte, two bytes or
/// four bytes holding the value shifted left by two, or a marker byte followed
/// by a plain four-byte value. Only the shortest encoding of a value is valid.
pub open spec fn compact_u32_at(d: Seq<u8>, p: int) -> Option<(u32, int)> {
    if p < 0 || p >= d.len() {
        None
    } else {
        let b0 = d[p] as int;
        if b0 % 4 == 0 {
            Some(((b0 / 4) as u32, p + 1))
        } else if b0 % 4 == 1 {
            if p + 2 > d.len() {
                None
            } else {
                let x = (b0 + d[p + 1] as int * 0x100) / 4;
                if 0x40 <= x { Some((x as u32, p + 2)) } else { None }
            }
        } else if b0 % 4 == 2 {
            if p + 4 > d.len() {
                None
            } else {
                let x = le_u32(d, p) / 4;
                if 0x4000 <= x { Some((x as u32, p + 4)) } else { None }
            }
        } else if b0 / 4 == 0 && p + 5 <= d.len() && 0x40000000 <= le_u32(d, p + 1) {
            Some((le_u32(d, p + 1) as u32, p + 5))
        } else {
            None
        }
    }
}

/// Reads a little-endian `u32`.
pub fn read_u32(data: &[u8], pos: usize) -> (r: Option<(u32, usize)>)
    ensures
        match r {
            Some((v, q)) => u32_at(data@, pos as int) == Some((v, q as int)),
            None => u32_at(data@, pos as int) is None,
        },
{
    if pos > data.len() || data.len() - pos < 4 {
        return None;
    }
    let v: u32 = data[pos] as u32 + data[pos + 1] as u32 * 0x100 + data[pos + 2] as u32 * 0x10000
        + data[pos + 3] as u32 * 0x1000000;
    Some((v, pos + 4))
}

/// Reads a little-endian `u64`.
pub fn read_u64(data: &[u8], pos: usize) -> (r: Option<(u64, usize)>)
    ensures
        match r {
            Some((v, q)) => u64_at(data@, pos as int) == Some((v, q as int)),
            None => u64_at(data@, pos as int) is None,
        },
{
    if pos > data.len() || data.len() - pos < 8 {
        return None;
    }
    let lo: u64 = data[pos] as u64 + data[pos + 1] as u64 * 0x100 + data[pos + 2] as u64 * 0x10000
        + data[pos + 3] as u64 * 0x1000000;
    let hi: u64 = data[pos + 4] as u64 + data[pos + 5] as u64 * 0x100 + data[pos + 6] as u64
        * 0x10000 + data[pos + 7] as u64 * 0x1000000;
    assert(lo as int == le_u32(data@, pos as int));
    assert(hi as int == le_u32(data@, pos + 4));
    let v: u64 = lo + hi * 0x100000000;
    Some((v, pos + 8))
}

/// Reads `N` bytes verbatim.
pub fn read_array<const N: usize>(data: &[u8], pos: usize) -> (r: Option<([u8; N], usize)>)
    ensures
        match r {
            Some((a, q)) => pos + N <= data@.len() && q == pos + N && a@ == bytes_at(
                data@,
                pos as int,
                N as int,
            ),
            None => pos + N > data@.len(),
        },
{
    if pos > data.len() || data.len() - pos < N {
        return None;
    }
    let mut a: [u8; N] = [0u8; N];
    let mut i: usize = 0;
    while i < N
        invariant
            pos + N <= data@.len() <= usize::MAX,
            i <= N,
            a@.len() == N,
            forall|j: int| 0 <= j < i ==> a@[j] == data@[pos + j],
        decreases N - i,
    {
        let b = data[pos + i];
        a[i] = b;
        i = i + 1;
    }
    assert(a@ =~= bytes_at(data@, pos as int, N as int));
    Some((a, pos + N))
}

/// Relies on parity-scale-codec's `Decode` for `Compact<u32>`: it reads one
/// compact integer from the front of the input and refuses an encoding that
/// is not the shortest. Returns the value and how many bytes were left.
#[verifier::external_body]
fn decode_compact_u32(input: &[u8]) -> (r: Option<(u32, usize)>)
    ensures
        match r {
            Some((v, left)) => left <= input@.len() && compact_u32_at(input@, 0) == Some(
                (v, input@.len() - left),
            ),
            None => compact_u32_at(input@, 0) is None,
        },
{
    let mut rest = input;
    match <parity_scale_codec::Compact<u32> as parity_scale_codec::Decode>::decode(&mut rest) {
        Ok(c) => Some((c.0, rest.len())),
        Err(_) => None,
    }
}

/// Reads the compact-encoded length in front of a sequence.
pub fn read_compact_u32(data: &[u8], pos: usize) -> (r: Option<(u32, usize)>)
    ensures
        match r {
            Some((v, q)) => compact_u32_at(data@, pos as int) == Some((v, q as int)),
            None => compact_u32_at(data@, pos as int) is None,
        },
{
    if pos >= data.len() {
        return None;
    }
    let rest = vstd::slice::slice_subrange(data, pos, data.len());
    let got = decode_compact_u32(rest);
    proof {
        lemma_compact_shift(data@, pos as int);
    }
    match got {
        Some((v, left)) => Some((v, data.len() - left)),
        None => None,
    }
}

/// Reading from a suffix is reading from the whole buffer at an offset.
proof fn lemma_compact_shift(d: Seq<u8>, p: int)
    requires
        0 <= p < d.len(),
    ensures
        ({
            let s = d.subrange(p, d.len() as int);
            match compact_u32_at(s, 0) {
                Some((v, q)) => compact_u32_at(d, p) == Some((v, q + p)),
                None => compact_u32_at(d, p) is None,
            }
        }),
{
    let s = d.subrange(p, d.len() as int);
    assert(forall|i: int| 0 <= i < s.len() ==> s[i] == d[p + i]);
}

} // verus!

//! Byte strings: prefixes, suffixes, and little-endian numbers.
use vstd::prelude::*;

use crate::text::bytes_eq;

verus! {

pub open spec fn starts_with(b: Seq<u8>, prefix: Seq<u8>) -> bool {
    b.len() >= prefix.len() && b.take(prefix.len() as int) == prefix
}

pub open spec fn ends_with(b: Seq<u8>, suffix: Seq<u8>) -> bool {
    b.len() >= suffix.len() && b.skip(b.len() - suffix.len()) == suffix
}

/// Whether the bytes start with a prefix.
pub fn has_prefix(b: &[u8], prefix: &[u8]) -> (r: bool)
    ensures
        r == starts_with(b@, prefix@),
{
    if b.len() < prefix.len() {
        return false;
    }
    let head = vstd::slice::slice_subrange(b, 0, prefix.len());
    assert(head@ =~= b@.take(prefix@.len() as int));
    bytes_eq(head, prefix)
}

/// Whether the bytes end with a suffix.
pub fn has_suffix(b: &[u8], suffix: &[u8]) -> (r: bool)
    ensures
        r == ends_with(b@, suffix@),
{
    if b.len() < suffix.len() {
        return false;
    }
    let tail = vstd::slice::slice_subrange(b, b.len() - suffix.len(), b.len());
    assert(tail@ =~= b@.skip(b@.len() - suffix@.len()));
    bytes_eq(tail, suffix)
}

/// The number that four little-endian bytes write.
#[verifier::opaque]
pub open spec fn le4_value(b: Seq<u8>) -> int {
    b[0] + b[1] * 0x100 + b[2] * 0x1_0000 + b[3] * 0x100_0000
}

/// The four little-endian bytes of a number.
#[verifier::opaque]
pub open spec fn le4_bytes(n: int) -> Seq<u8> {
    seq![
        (n % 0x100) as u8,
        (n / 0x100 % 0x100) as u8,
        (n / 0x1_0000 % 0x100) as u8,
        (n / 0x100_0000 % 0x100) as u8,
    ]
}

/// The number that eight little-endian bytes write.
pub open spec fn le8_value(b: Seq<u8>) -> int {
    le4_value(b.subrange(0, 4)) + le4_value(b.subrange(4, 8)) * 0x1_0000_0000
}

/// The eight little-endian bytes of a number.
pub open spec fn le8_bytes(n: int) -> Seq<u8> {
    le4_bytes(n % 0x1_0000_0000) + le4_bytes(n / 0x1_0000_0000)
}

pub proof fn lemma_le_len(n: int)
    ensures
        le4_bytes(n).len() == 4,
        le8_bytes(n).len() == 8,
{
    reveal(le4_bytes);
}

/// Whatever the bytes are, the number fits.
pub proof fn lemma_le_range(b: Seq<u8>)
    ensures
        0 <= le4_value(b) < 0x1_0000_0000,
{
    reveal(le4_value);
}

/// Four bytes give back the number that they were made from.
pub proof fn le4_roundtrip(n: int)
    requires
        0 <= n < 0x1_0000_0000,
    ensures
        le4_value(le4_bytes(n)) == n,
        le4_bytes(n).len() == 4,
{
    reveal(le4_bytes);
    reveal(le4_value);
    let b = le4_bytes(n);
    assert(b[0] == n % 0x100);
    assert(b[1] == n / 0x100 % 0x100);
    assert(b[2] == n / 0x1_0000 % 0x100);
    assert(b[3] == n / 0x100_0000 % 0x100);
}

/// The bytes of the number that four bytes write are those bytes.
pub proof fn lemma_le4_of_value(b: Seq<u8>)
    requires
        b.len() == 4,
    ensures
        le4_bytes(le4_value(b)) == b,
{
    reveal(le4_value);
    reveal(le4_bytes);
    let m2: int = b[2] + b[3] * 0x100;
    let m1: int = b[1] + m2 * 0x100;
    let n: int = b[0] + m1 * 0x100;
    assert(le4_value(b) == n);
    lemma_split_byte(b[0], m1);
    lemma_split_byte(b[1], m2);
    lemma_split_byte(b[2], b[3] as int);
    assert(n / 0x1_0000 == n / 0x100 / 0x100);
    assert(n / 0x100_0000 == n / 0x1_0000 / 0x100);
    assert((b[3] as int) % 0x100 == b[3]);
    assert(le4_bytes(n) =~= b);
}

proof fn lemma_split_byte(low: u8, high: int)
    ensures
        (low + high * 0x100) % 0x100 == low,
        (low + high * 0x100) / 0x100 == high,
{
}

/// The bytes of the number that eight bytes write are those bytes.
pub proof fn lemma_le8_of_value(b: Seq<u8>)
    requires
        b.len() == 8,
    ensures
        le8_bytes(le8_value(b)) == b,
        0 <= le8_value(b) < 0x1_0000_0000_0000_0000,
{
    let lo = b.subrange(0, 4);
    let hi = b.subrange(4, 8);
    lemma_le4_of_value(lo);
    lemma_le4_of_value(hi);
    lemma_le_range(lo);
    lemma_le_range(hi);
    assert(le8_value(b) % 0x1_0000_0000 == le4_value(lo));
    assert(le8_value(b) / 0x1_0000_0000 == le4_value(hi));
    assert(lo + hi =~= b);
}

/// Eight bytes give back the number that they were made from.
pub proof fn le8_roundtrip(n: int)
    requires
        0 <= n < 0x1_0000_0000_0000_0000,
    ensures
        le8_value(le8_bytes(n)) == n,
        le8_bytes(n).len() == 8,
{
    let lo = n % 0x1_0000_0000;
    let hi = n / 0x1_0000_0000;
    le4_roundtrip(lo);
    le4_roundtrip(hi);
    assert(le8_bytes(n).subrange(0, 4) =~= le4_bytes(lo));
    assert(le8_bytes(n).subrange(4, 8) =~= le4_bytes(hi));
}

/// Appends the four little-endian bytes of a number.
pub fn push_le4(out: &mut Vec<u8>, n: u32)
    ensures
        final(out)@ == old(out)@ + le4_bytes(n as int),
{
    out.push((n % 0x100) as u8);
    out.push((n / 0x100 % 0x100) as u8);
    out.push((n / 0x1_0000 % 0x100) as u8);
    out.push((n / 0x100_0000 % 0x100) as u8);
    reveal(le4_bytes);
    assert(out@ =~= old(out)@ + le4_bytes(n as int));
}

/// Appends the eight little-endian bytes of a number.
pub fn push_le8(out: &mut Vec<u8>, n: u64)
    ensures
        final(out)@ == old(out)@ + le8_bytes(n as int),
{
    push_le4(out, (n % 0x1_0000_0000) as u32);
    push_le4(out, (n / 0x1_0000_0000) as u32);
    assert(out@ =~= old(out)@ + le8_bytes(n as int));
}

/// Reads four little-endian bytes.
pub fn read_le4(b: &[u8], off: usize) -> (r: u32)
    requires
        off + 4 <= b@.len(),
    ensures
        r == le4_value(b@.subrange(off as int, off + 4)),
{
    reveal(le4_value);
    let r: u32 = b[off] as u32 + (b[off + 1] as u32) * 0x100 + (b[off + 2] as u32) * 0x1_0000 + (
    b[off + 3] as u32) * 0x100_0000;
    r
}

/// Reads eight little-endian bytes.
pub fn read_le8(b: &[u8], off: usize) -> (r: u64)
    requires
        off + 8 <= b@.len(),
    ensures
        r == le8_value(b@.subrange(off as int, off + 8)),
{
    proof {
        let s = b@.subrange(off as int, off + 8);
        assert(s.subrange(0, 4) =~= b@.subrange(off as int, off + 4));
        assert(s.subrange(4, 8) =~= b@.subrange(off + 4, off + 8));
    }
    assert(off + 8 <= b.len());
    proof {
        lemma_le_range(b@.subrange(off as int, off + 4));
    }
    let lo = read_le4(b, off);
    let hi = read_le4(b, off + 4);
    lo as u64 + (hi as u64) * 0x1_0000_0000
}

} // verus!

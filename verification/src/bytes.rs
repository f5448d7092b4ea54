//! Big-endian 32-bit fields and byte-buffer helpers.
use vstd::prelude::*;

verus! {

/// The number whose big-endian encoding is the four bytes of `b`.
#[verifier::opaque]
pub open spec fn be_u32(b: Seq<u8>) -> u32
    recommends
        b.len() == 4,
{
    (b[0] * 0x100_0000 + b[1] * 0x1_0000 + b[2] * 0x100 + b[3]) as u32
}

/// The four bytes that encode `x`, most significant first.
#[verifier::opaque]
pub open spec fn be_bytes(x: u32) -> Seq<u8> {
    seq![
        (x / 0x100_0000) as u8,
        (x / 0x1_0000 % 0x100) as u8,
        (x / 0x100 % 0x100) as u8,
        (x % 0x100) as u8,
    ]
}

/// Decoding undoes encoding.
pub proof fn lemma_be_u32_of_be_bytes(x: u32)
    ensures
        be_bytes(x).len() == 4,
        be_u32(be_bytes(x)) == x,
{
    reveal(be_u32);
    reveal(be_bytes);
}

/// Encoding undoes decoding.
pub proof fn lemma_be_bytes_of_be_u32(b: Seq<u8>)
    requires
        b.len() == 4,
    ensures
        be_bytes(be_u32(b)) == b,
{
    reveal(be_u32);
    reveal(be_bytes);
    let b0: int = b[0] as int;
    let b1: int = b[1] as int;
    let b2: int = b[2] as int;
    let b3: int = b[3] as int;
    let x: int = b0 * 0x100_0000 + b1 * 0x1_0000 + b2 * 0x100 + b3;
    assert(be_u32(b) == x);
    assert(x / 0x100_0000 == b0);
    assert(x / 0x1_0000 == b0 * 0x100 + b1);
    assert(x / 0x100 == b0 * 0x1_0000 + b1 * 0x100 + b2);
    assert(be_bytes(be_u32(b)) =~= b);
}

/// Encodes `x` as four bytes, most significant first.
pub fn u32_to_be_bytes(x: u32) -> (out: [u8; 4])
    ensures
        out@ == be_bytes(x),
{
    let out: [u8; 4] = [
        (x / 0x100_0000) as u8,
        (x / 0x1_0000 % 0x100) as u8,
        (x / 0x100 % 0x100) as u8,
        (x % 0x100) as u8,
    ];
    proof {
        reveal(be_bytes);
    }
    assert(out@ =~= be_bytes(x));
    out
}

/// Decodes the four bytes `b`, most significant first.
pub fn u32_from_be_bytes(b: [u8; 4]) -> (x: u32)
    ensures
        x == be_u32(b@),
{
    proof {
        reveal(be_u32);
    }
    let b0: u32 = b[0] as u32;
    let b1: u32 = b[1] as u32;
    let b2: u32 = b[2] as u32;
    let b3: u32 = b[3] as u32;
    b0 * 0x100_0000 + b1 * 0x1_0000 + b2 * 0x100 + b3
}

/// Decodes the four bytes of `buf` that start at `at`, most significant
/// first.
pub fn read_u32_be(buf: &[u8], at: usize) -> (x: u32)
    requires
        at + 4 <= buf@.len(),
    ensures
        x == be_u32(buf@.subrange(at as int, at + 4)),
{
    let word: [u8; 4] = [buf[at], buf[at + 1], buf[at + 2], buf[at + 3]];
    assert(word@ =~= buf@.subrange(at as int, at + 4));
    u32_from_be_bytes(word)
}

/// Appends the bytes of `tail` to `buf`.
pub fn append_bytes(buf: &mut Vec<u8>, tail: &[u8])
    ensures
        final(buf)@ == old(buf)@ + tail@,
{
    let mut i: usize = 0;
    while i < tail.len()
        invariant
            i <= tail@.len(),
            buf@ == old(buf)@ + tail@.subrange(0, i as int),
        decreases tail@.len() - i,
    {
        buf.push(tail[i]);
        i += 1;
    }
    assert(tail@.subrange(0, i as int) =~= tail@);
}

/// Whether `a` and `b` hold the same bytes.
pub fn bytes_equal(a: &[u8], b: &[u8]) -> (equal: bool)
    ensures
        equal == (a@ == b@),
{
    if a.len() != b.len() {
        return false;
    }
    let mut i: usize = 0;
    while i < a.len()
        invariant
            a@.len() == b@.len(),
            i <= a@.len(),
            a@.subrange(0, i as int) == b@.subrange(0, i as int),
        decreases a@.len() - i,
    {
        if a[i] != b[i] {
            return false;
        }
        assert(a@.subrange(0, i + 1) =~= a@.subrange(0, i as int).push(a@[i as int]));
        assert(b@.subrange(0, i + 1) =~= b@.subrange(0, i as int).push(b@[i as int]));
        i += 1;
    }
    assert(a@.subrange(0, i as int) =~= a@);
    assert(b@.subrange(0, i as int) =~= b@);
    true
}

} // verus!

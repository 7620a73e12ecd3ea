//! Fixed-width integers as bytes, in both byte orders.
//!
//! Lengths in a record header and in a frame prefix are eight bytes,
//! most significant first.  Inside a serialized value every integer is
//! least significant byte first.
use vstd::prelude::*;

verus! {

/// The eight bytes of `x`, least significant first.
#[verifier::opaque]
pub open spec fn le64(x: u64) -> Seq<u8> {
    let x0 = x as int;
    let x1 = x0 / 256;
    let x2 = x1 / 256;
    let x3 = x2 / 256;
    let x4 = x3 / 256;
    let x5 = x4 / 256;
    let x6 = x5 / 256;
    let x7 = x6 / 256;
    seq![
        (x0 % 256) as u8,
        (x1 % 256) as u8,
        (x2 % 256) as u8,
        (x3 % 256) as u8,
        (x4 % 256) as u8,
        (x5 % 256) as u8,
        (x6 % 256) as u8,
        (x7 % 256) as u8,
    ]
}

/// The number whose eight bytes, least significant first, are `s`.
#[verifier::opaque]
pub open spec fn from_le64(s: Seq<u8>) -> u64
    recommends
        s.len() == 8,
{
    (s[0] + 256 * (s[1] + 256 * (s[2] + 256 * (s[3] + 256 * (s[4] + 256 * (s[5] + 256 * (s[6]
        + 256 * s[7]))))))) as u64
}

/// The four bytes of `x`, least significant first.
#[verifier::opaque]
pub open spec fn le32(x: u32) -> Seq<u8> {
    let x0 = x as int;
    let x1 = x0 / 256;
    let x2 = x1 / 256;
    let x3 = x2 / 256;
    seq![(x0 % 256) as u8, (x1 % 256) as u8, (x2 % 256) as u8, (x3 % 256) as u8]
}

/// The number whose four bytes, least significant first, are `s`.
#[verifier::opaque]
pub open spec fn from_le32(s: Seq<u8>) -> u32
    recommends
        s.len() == 4,
{
    (s[0] + 256 * (s[1] + 256 * (s[2] + 256 * s[3]))) as u32
}

/// The eight bytes of `x`, most significant first.
pub open spec fn be64(x: u64) -> Seq<u8> {
    le64(x).reverse()
}

/// The number whose eight bytes, most significant first, are `s`.
pub open spec fn from_be64(s: Seq<u8>) -> u64
    recommends
        s.len() == 8,
{
    from_le64(s.reverse())
}

/// Reading back what `le64` wrote gives the number again.
pub proof fn lemma_le64_round_trip(x: u64)
    ensures
        le64(x).len() == 8,
        from_le64(le64(x)) == x,
{
    reveal(le64);
    reveal(from_le64);
}

/// Writing what `from_le64` read gives the bytes again.
pub proof fn lemma_le64_bytes_round_trip(s: Seq<u8>)
    requires
        s.len() == 8,
    ensures
        le64(from_le64(s)) == s,
{
    reveal(le64);
    reveal(from_le64);
    let x7 = s[7] as int;
    let x6 = s[6] + 256 * x7;
    let x5 = s[5] + 256 * x6;
    let x4 = s[4] + 256 * x5;
    let x3 = s[3] + 256 * x4;
    let x2 = s[2] + 256 * x3;
    let x1 = s[1] + 256 * x2;
    let x0 = s[0] + 256 * x1;
    assert(x6 / 256 == x7 && x6 % 256 == s[6]);
    assert(x5 / 256 == x6 && x5 % 256 == s[5]);
    assert(x4 / 256 == x5 && x4 % 256 == s[4]);
    assert(x3 / 256 == x4 && x3 % 256 == s[3]);
    assert(x2 / 256 == x3 && x2 % 256 == s[2]);
    assert(x1 / 256 == x2 && x1 % 256 == s[1]);
    assert(x0 / 256 == x1 && x0 % 256 == s[0]);
    assert(0 <= x0 <= u64::MAX);
    assert(from_le64(s) == x0);
    assert(le64(from_le64(s)) =~= s);
}

/// Reading back what `le32` wrote gives the number again.
pub proof fn lemma_le32_round_trip(x: u32)
    ensures
        le32(x).len() == 4,
        from_le32(le32(x)) == x,
{
    reveal(le32);
    reveal(from_le32);
}

/// Writing what `from_le32` read gives the bytes again.
pub proof fn lemma_le32_bytes_round_trip(s: Seq<u8>)
    requires
        s.len() == 4,
    ensures
        le32(from_le32(s)) == s,
{
    reveal(le32);
    reveal(from_le32);
    let x3 = s[3] as int;
    let x2 = s[2] + 256 * x3;
    let x1 = s[1] + 256 * x2;
    let x0 = s[0] + 256 * x1;
    assert(x2 / 256 == x3 && x2 % 256 == s[2]);
    assert(x1 / 256 == x2 && x1 % 256 == s[1]);
    assert(x0 / 256 == x1 && x0 % 256 == s[0]);
    assert(0 <= x0 <= u32::MAX);
    assert(from_le32(s) == x0);
    assert(le32(from_le32(s)) =~= s);
}

/// Reading back what `be64` wrote gives the number again.
pub proof fn lemma_be64_round_trip(x: u64)
    ensures
        be64(x).len() == 8,
        from_be64(be64(x)) == x,
{
    lemma_le64_round_trip(x);
    assert(be64(x).reverse() =~= le64(x));
}

/// Writing what `from_be64` read gives the bytes again.
pub proof fn lemma_be64_bytes_round_trip(s: Seq<u8>)
    requires
        s.len() == 8,
    ensures
        be64(from_be64(s)) == s,
{
    lemma_le64_bytes_round_trip(s.reverse());
    assert(s.reverse().reverse() =~= s);
}

/// Appends the eight bytes of `x`, least significant first.
pub fn put_le64(buf: &mut Vec<u8>, x: u64)
    ensures
        final(buf)@ == old(buf)@ + le64(x),
{
    proof {
        reveal(le64);
    }
    let x1: u64 = x / 256;
    let x2: u64 = x1 / 256;
    let x3: u64 = x2 / 256;
    let x4: u64 = x3 / 256;
    let x5: u64 = x4 / 256;
    let x6: u64 = x5 / 256;
    let x7: u64 = x6 / 256;
    buf.push((x % 256) as u8);
    buf.push((x1 % 256) as u8);
    buf.push((x2 % 256) as u8);
    buf.push((x3 % 256) as u8);
    buf.push((x4 % 256) as u8);
    buf.push((x5 % 256) as u8);
    buf.push((x6 % 256) as u8);
    buf.push((x7 % 256) as u8);
    assert(buf@ =~= old(buf)@ + le64(x));
}

/// Appends the four bytes of `x`, least significant first.
pub fn put_le32(buf: &mut Vec<u8>, x: u32)
    ensures
        final(buf)@ == old(buf)@ + le32(x),
{
    proof {
        reveal(le32);
    }
    let x1: u32 = x / 256;
    let x2: u32 = x1 / 256;
    let x3: u32 = x2 / 256;
    buf.push((x % 256) as u8);
    buf.push((x1 % 256) as u8);
    buf.push((x2 % 256) as u8);
    buf.push((x3 % 256) as u8);
    assert(buf@ =~= old(buf)@ + le32(x));
}

/// Appends the eight bytes of `x`, most significant first.
pub fn put_be64(buf: &mut Vec<u8>, x: u64)
    ensures
        final(buf)@ == old(buf)@ + be64(x),
{
    proof {
        reveal(le64);
    }
    let x1: u64 = x / 256;
    let x2: u64 = x1 / 256;
    let x3: u64 = x2 / 256;
    let x4: u64 = x3 / 256;
    let x5: u64 = x4 / 256;
    let x6: u64 = x5 / 256;
    let x7: u64 = x6 / 256;
    buf.push((x7 % 256) as u8);
    buf.push((x6 % 256) as u8);
    buf.push((x5 % 256) as u8);
    buf.push((x4 % 256) as u8);
    buf.push((x3 % 256) as u8);
    buf.push((x2 % 256) as u8);
    buf.push((x1 % 256) as u8);
    buf.push((x % 256) as u8);
    assert(buf@ =~= old(buf)@ + be64(x));
}

/// Reads eight bytes at `pos`, least significant first.
pub fn get_le64(bytes: &[u8], pos: usize) -> (x: u64)
    requires
        pos + 8 <= bytes@.len(),
    ensures
        x == from_le64(bytes@.subrange(pos as int, pos + 8)),
{
    proof {
        reveal(from_le64);
    }
    let len: usize = bytes.len();
    assert(pos + 8 <= len);
    let mut acc: u64 = bytes[pos + 7] as u64;
    acc = acc * 256 + bytes[pos + 6] as u64;
    acc = acc * 256 + bytes[pos + 5] as u64;
    acc = acc * 256 + bytes[pos + 4] as u64;
    acc = acc * 256 + bytes[pos + 3] as u64;
    acc = acc * 256 + bytes[pos + 2] as u64;
    acc = acc * 256 + bytes[pos + 1] as u64;
    acc = acc * 256 + bytes[pos] as u64;
    acc
}

/// Reads four bytes at `pos`, least significant first.
pub fn get_le32(bytes: &[u8], pos: usize) -> (x: u32)
    requires
        pos + 4 <= bytes@.len(),
    ensures
        x == from_le32(bytes@.subrange(pos as int, pos + 4)),
{
    proof {
        reveal(from_le32);
    }
    let len: usize = bytes.len();
    assert(pos + 4 <= len);
    let mut acc: u32 = bytes[pos + 3] as u32;
    acc = acc * 256 + bytes[pos + 2] as u32;
    acc = acc * 256 + bytes[pos + 1] as u32;
    acc = acc * 256 + bytes[pos] as u32;
    acc
}

/// Reads eight bytes at `pos`, most significant first.
pub fn get_be64(bytes: &[u8], pos: usize) -> (x: u64)
    requires
        pos + 8 <= bytes@.len(),
    ensures
        x == from_be64(bytes@.subrange(pos as int, pos + 8)),
{
    proof {
        reveal(from_le64);
    }
    let mut acc: u64 = bytes[pos] as u64;
    acc = acc * 256 + bytes[pos + 1] as u64;
    acc = acc * 256 + bytes[pos + 2] as u64;
    acc = acc * 256 + bytes[pos + 3] as u64;
    acc = acc * 256 + bytes[pos + 4] as u64;
    acc = acc * 256 + bytes[pos + 5] as u64;
    acc = acc * 256 + bytes[pos + 6] as u64;
    acc = acc * 256 + bytes[pos + 7] as u64;
    acc
}

} // verus!

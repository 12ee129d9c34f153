//! Big-endian integers in byte sequences.

use vstd::prelude::*;

verus! {

/// The two bytes of `x`, most significant first.
pub open spec fn u16_be(x: u16) -> Seq<u8> {
    seq![(x / 0x100) as u8, (x % 0x100) as u8]
}

/// The four bytes of `x`, most significant first.
pub open spec fn u32_be(x: u32) -> Seq<u8> {
    seq![
        (x / 0x100_0000) as u8,
        ((x / 0x1_0000) % 0x100) as u8,
        ((x / 0x100) % 0x100) as u8,
        (x % 0x100) as u8,
    ]
}

/// The integer whose bytes start at position `at` of `s`.
pub open spec fn be_u16(s: Seq<u8>, at: int) -> u16 {
    (s[at] * 0x100 + s[at + 1]) as u16
}

/// The integer whose bytes start at position `at` of `s`.
pub open spec fn be_u32(s: Seq<u8>, at: int) -> u32 {
    (s[at] * 0x100_0000 + s[at + 1] * 0x1_0000 + s[at + 2] * 0x100 + s[at + 3]) as u32
}

/// `s` with `t` written over it from position `at` on.
pub open spec fn splice(s: Seq<u8>, at: int, t: Seq<u8>) -> Seq<u8> {
    s.take(at) + t + s.skip(at + t.len())
}

/// Where `head` has been written over the start of `before`, writing `t` next
/// makes the written part `head + t`.
pub proof fn lemma_splice_next(before: Seq<u8>, head: Seq<u8>, t: Seq<u8>)
    requires
        head.len() + t.len() <= before.len(),
    ensures
        splice(head + before.skip(head.len() as int), head.len() as int, t) == (head + t)
            + before.skip((head + t).len() as int),
{
    assert(splice(head + before.skip(head.len() as int), head.len() as int, t) =~= (head + t)
        + before.skip((head + t).len() as int));
}

/// Reading two bytes gives back the integer that was written there.
pub proof fn lemma_u16_round_trip(s: Seq<u8>, at: int, x: u16)
    requires
        0 <= at,
        at + 2 <= s.len(),
        s.subrange(at, at + 2) == u16_be(x),
    ensures
        be_u16(s, at) == x,
{
    let t = s.subrange(at, at + 2);
    assert(t[0] == s[at] && t[1] == s[at + 1]);
    assert(x / 0x100 * 0x100 + x % 0x100 == x);
}

/// Reading four bytes gives back the integer that was written there.
pub proof fn lemma_u32_round_trip(s: Seq<u8>, at: int, x: u32)
    requires
        0 <= at,
        at + 4 <= s.len(),
        s.subrange(at, at + 4) == u32_be(x),
    ensures
        be_u32(s, at) == x,
{
    let t = s.subrange(at, at + 4);
    assert(t[0] == s[at] && t[1] == s[at + 1] && t[2] == s[at + 2] && t[3] == s[at + 3]);
}

/// Reads the integer at position `at`.
pub fn get_u16(buf: &[u8], at: usize) -> (x: u16)
    requires
        at + 2 <= buf@.len(),
    ensures
        x == be_u16(buf@, at as int),
{
    buf[at] as u16 * 0x100 + buf[at + 1] as u16
}

/// Reads the integer at position `at`.
pub fn get_u32(buf: &[u8], at: usize) -> (x: u32)
    requires
        at + 4 <= buf@.len(),
    ensures
        x == be_u32(buf@, at as int),
{
    buf[at] as u32 * 0x100_0000 + buf[at + 1] as u32 * 0x1_0000 + buf[at + 2] as u32 * 0x100
        + buf[at + 3] as u32
}

/// Writes one byte at position `at`.
pub fn set_u8(buf: &mut [u8], at: usize, x: u8)
    requires
        at < old(buf)@.len(),
    ensures
        final(buf)@ == splice(old(buf)@, at as int, seq![x]),
{
    buf[at] = x;
    assert(buf@ =~= splice(old(buf)@, at as int, seq![x]));
}

/// Writes the bytes of `x` at position `at`.
pub fn set_u16(buf: &mut [u8], at: usize, x: u16)
    requires
        at + 2 <= old(buf)@.len(),
    ensures
        final(buf)@ == splice(old(buf)@, at as int, u16_be(x)),
{
    buf[at] = (x / 0x100) as u8;
    buf[at + 1] = (x % 0x100) as u8;
    assert(buf@ =~= splice(old(buf)@, at as int, u16_be(x)));
}

/// Writes the bytes of `x` at position `at`.
pub fn set_u32(buf: &mut [u8], at: usize, x: u32)
    requires
        at + 4 <= old(buf)@.len(),
    ensures
        final(buf)@ == splice(old(buf)@, at as int, u32_be(x)),
{
    buf[at] = (x / 0x100_0000) as u8;
    buf[at + 1] = ((x / 0x1_0000) % 0x100) as u8;
    buf[at + 2] = ((x / 0x100) % 0x100) as u8;
    buf[at + 3] = (x % 0x100) as u8;
    assert(buf@ =~= splice(old(buf)@, at as int, u32_be(x)));
}

/// Copies `src` over `buf` from position `at` on.
pub fn set_bytes(buf: &mut [u8], at: usize, src: &[u8])
    requires
        at + src@.len() <= old(buf)@.len(),
    ensures
        final(buf)@ == splice(old(buf)@, at as int, src@),
{
    let total: usize = buf.len();
    let mut i: usize = 0;
    while i < src.len()
        invariant
            i <= src@.len(),
            total == old(buf)@.len(),
            at + src@.len() <= total,
            buf@ == splice(old(buf)@, at as int, src@.take(i as int)),
        decreases src@.len() - i,
    {
        buf[at + i] = src[i];
        i += 1;
        assert(buf@ =~= splice(old(buf)@, at as int, src@.take(i as int)));
    }
    assert(src@.take(src@.len() as int) =~= src@);
}

/// Appends a copy of `src`.
pub fn push_bytes(out: &mut Vec<u8>, src: &[u8])
    ensures
        final(out)@ == old(out)@ + src@,
{
    let mut i: usize = 0;
    while i < src.len()
        invariant
            i <= src@.len(),
            out@ == old(out)@ + src@.take(i as int),
        decreases src@.len() - i,
    {
        out.push(src[i]);
        i += 1;
        assert(out@ =~= old(out)@ + src@.take(i as int));
    }
    assert(src@.take(src@.len() as int) =~= src@);
}

/// A copy of the bytes of `src` from `from` up to, not including, `to`.
pub fn copy_range(src: &[u8], from: usize, to: usize) -> (out: Vec<u8>)
    requires
        from <= to <= src@.len(),
    ensures
        out@ == src@.subrange(from as int, to as int),
{
    let mut out: Vec<u8> = Vec::new();
    let mut i: usize = from;
    while i < to
        invariant
            from <= i <= to <= src@.len(),
            out@ == src@.subrange(from as int, i as int),
        decreases to - i,
    {
        out.push(src[i]);
        i += 1;
        assert(out@ =~= src@.subrange(from as int, i as int));
    }
    out
}

} // verus!

//! Byte-level vocabulary: big- and little-endian fields inside byte sequences.

use vstd::prelude::*;

verus! {

/// The two big-endian bytes of `x`.
pub open spec fn be2(x: u16) -> Seq<u8> {
    seq![(x / 256) as u8, (x % 256) as u8]
}

/// The four big-endian bytes of `x`.
pub open spec fn be4(x: u32) -> Seq<u8> {
    seq![
        (x / 0x100_0000) as u8,
        (x / 0x1_0000 % 256) as u8,
        (x / 256 % 256) as u8,
        (x % 256) as u8,
    ]
}

/// The big-endian 16-bit field of `s` at `i`.
pub open spec fn rd_be2(s: Seq<u8>, i: int) -> u16 {
    (s[i] * 256 + s[i + 1]) as u16
}

/// The big-endian 32-bit field of `s` at `i`.
pub open spec fn rd_be4(s: Seq<u8>, i: int) -> u32 {
    (s[i] * 0x100_0000 + s[i + 1] * 0x1_0000 + s[i + 2] * 256 + s[i + 3]) as u32
}

/// The little-endian 16-bit field of `s` at `i`.
pub open spec fn rd_le2(s: Seq<u8>, i: int) -> u16 {
    (s[i + 1] * 256 + s[i]) as u16
}

/// The little-endian 32-bit field of `s` at `i`.
pub open spec fn rd_le4(s: Seq<u8>, i: int) -> u32 {
    (s[i + 3] * 0x100_0000 + s[i + 2] * 0x1_0000 + s[i + 1] * 256 + s[i]) as u32
}

/// `s` with the bytes of `d` laid over it from position `at`.
pub open spec fn overlay(s: Seq<u8>, at: int, d: Seq<u8>) -> Seq<u8> {
    Seq::new(s.len(), |i: int| if at <= i < at + d.len() { d[i - at] } else { s[i] })
}

/// A 16-bit field reads as the value whose bytes stand there.
pub proof fn lemma_rd_be2_at(s: Seq<u8>, i: int, x: u16)
    requires
        0 <= i,
        i + 2 <= s.len(),
        s.subrange(i, i + 2) == be2(x),
    ensures
        rd_be2(s, i) == x,
{
    let t = s.subrange(i, i + 2);
    assert(t[0] == s[i] && t[1] == s[i + 1]);
}

/// A 32-bit field reads as the value whose bytes stand there.
pub proof fn lemma_rd_be4_at(s: Seq<u8>, i: int, x: u32)
    requires
        0 <= i,
        i + 4 <= s.len(),
        s.subrange(i, i + 4) == be4(x),
    ensures
        rd_be4(s, i) == x,
{
    let t = s.subrange(i, i + 4);
    assert(t[0] == s[i] && t[1] == s[i + 1] && t[2] == s[i + 2] && t[3] == s[i + 3]);
}

/// Writes `src` into `buf` from position `at`.
pub fn put_bytes(buf: &mut [u8], at: usize, src: &[u8])
    requires
        at + src@.len() <= old(buf)@.len(),
    ensures
        final(buf)@ == overlay(old(buf)@, at as int, src@),
{
    let total: usize = buf.len();
    let mut i: usize = 0;
    while i < src.len()
        invariant
            0 <= i <= src@.len(),
            at + src@.len() <= old(buf)@.len(),
            total == old(buf)@.len(),
            buf@ == overlay(old(buf)@, at as int, src@.subrange(0, i as int)),
        decreases src@.len() - i,
    {
        buf[at + i] = src[i];
        i = i + 1;
        assert(buf@ =~= overlay(old(buf)@, at as int, src@.subrange(0, i as int)));
    }
    assert(src@.subrange(0, src@.len() as int) =~= src@);
}

/// Writes the two big-endian bytes of `x` at `at`.
pub fn put_be2(buf: &mut [u8], at: usize, x: u16)
    requires
        at + 2 <= old(buf)@.len(),
    ensures
        final(buf)@ == overlay(old(buf)@, at as int, be2(x)),
{
    buf[at] = (x / 256) as u8;
    buf[at + 1] = (x % 256) as u8;
    assert(buf@ =~= overlay(old(buf)@, at as int, be2(x)));
}

/// Writes the four big-endian bytes of `x` at `at`.
pub fn put_be4(buf: &mut [u8], at: usize, x: u32)
    requires
        at + 4 <= old(buf)@.len(),
    ensures
        final(buf)@ == overlay(old(buf)@, at as int, be4(x)),
{
    buf[at] = (x / 0x100_0000) as u8;
    buf[at + 1] = (x / 0x1_0000 % 256) as u8;
    buf[at + 2] = (x / 256 % 256) as u8;
    buf[at + 3] = (x % 256) as u8;
    assert(buf@ =~= overlay(old(buf)@, at as int, be4(x)));
}

/// Reads the big-endian 16-bit field at `at`.
pub fn get_be2(p: &[u8], at: usize) -> (r: u16)
    requires
        at + 2 <= p@.len(),
    ensures
        r == rd_be2(p@, at as int),
{
    let _n: usize = p.len();
    p[at] as u16 * 256 + p[at + 1] as u16
}

/// Reads the big-endian 32-bit field at `at`.
pub fn get_be4(p: &[u8], at: usize) -> (r: u32)
    requires
        at + 4 <= p@.len(),
    ensures
        r == rd_be4(p@, at as int),
{
    let _n: usize = p.len();
    p[at] as u32 * 0x100_0000 + p[at + 1] as u32 * 0x1_0000 + p[at + 2] as u32 * 256 + p[at + 3] as u32
}

/// Reads the little-endian 16-bit field at `at`.
pub fn get_le2(p: &[u8], at: usize) -> (r: u16)
    requires
        at + 2 <= p@.len(),
    ensures
        r == rd_le2(p@, at as int),
{
    let _n: usize = p.len();
    p[at + 1] as u16 * 256 + p[at] as u16
}

/// Reads the little-endian 32-bit field at `at`.
pub fn get_le4(p: &[u8], at: usize) -> (r: u32)
    requires
        at + 4 <= p@.len(),
    ensures
        r == rd_le4(p@, at as int),
{
    let _n: usize = p.len();
    p[at + 3] as u32 * 0x100_0000 + p[at + 2] as u32 * 0x1_0000 + p[at + 1] as u32 * 256 + p[at] as u32
}

/// The little-endian 64-bit field of `s` at `i`.
pub open spec fn rd_le8(s: Seq<u8>, i: int) -> u64 {
    (rd_le4(s, i + 4) * 0x1_0000_0000 + rd_le4(s, i)) as u64
}

/// Reads a little-endian 64-bit field.
pub fn get_le8(p: &[u8], at: usize) -> (r: u64)
    requires
        at + 8 <= p@.len(),
    ensures
        r == rd_le8(p@, at as int),
{
    let _n: usize = p.len();
    get_le4(p, at + 4) as u64 * 0x1_0000_0000 + get_le4(p, at) as u64
}

/// The bytes of a 32-bit value, the lowest first.
pub open spec fn le4(x: u32) -> Seq<u8> {
    seq![
        (x % 256) as u8,
        (x / 256 % 256) as u8,
        (x / 0x1_0000 % 256) as u8,
        (x / 0x100_0000) as u8,
    ]
}

/// The bytes of a 64-bit value, the lowest first.
pub open spec fn le8(x: u64) -> Seq<u8> {
    le4((x % 0x1_0000_0000) as u32) + le4((x / 0x1_0000_0000) as u32)
}

/// Appends the bytes of a 64-bit value, the lowest first.
pub fn push_le8(v: &mut Vec<u8>, x: u64)
    ensures
        final(v)@ == old(v)@ + le8(x),
{
    let lo: u32 = (x % 0x1_0000_0000) as u32;
    let hi: u32 = (x / 0x1_0000_0000) as u32;
    v.push((lo % 256) as u8);
    v.push((lo / 256 % 256) as u8);
    v.push((lo / 0x1_0000 % 256) as u8);
    v.push((lo / 0x100_0000) as u8);
    v.push((hi % 256) as u8);
    v.push((hi / 256 % 256) as u8);
    v.push((hi / 0x1_0000 % 256) as u8);
    v.push((hi / 0x100_0000) as u8);
    assert(v@ =~= old(v)@ + le8(x));
}

/// A 32-bit field reads as the value whose bytes stand there.
pub proof fn lemma_rd_le4_at(s: Seq<u8>, i: int, x: u32)
    requires
        s[i] == (x % 256) as u8,
        s[i + 1] == (x / 256 % 256) as u8,
        s[i + 2] == (x / 0x1_0000 % 256) as u8,
        s[i + 3] == (x / 0x100_0000) as u8,
    ensures
        rd_le4(s, i) == x,
{
    assert(x / 0x100_0000 < 256 && (x / 0x100_0000) * 0x100_0000 + (x / 0x1_0000 % 256) * 0x1_0000 + (x / 256 % 256) * 256
        + x % 256 == x) by (bit_vector);
}

/// Reading back a 64-bit field gives the value that was written.
pub proof fn lemma_le8_round(s: Seq<u8>, i: int, x: u64)
    requires
        0 <= i,
        i + 8 <= s.len(),
        s.subrange(i, i + 8) == le8(x),
    ensures
        rd_le8(s, i) == x,
{
    let lo = (x % 0x1_0000_0000) as u32;
    let hi = (x / 0x1_0000_0000) as u32;
    let t = le8(x);
    assert forall|k: int| 0 <= k < 8 implies s[i + k] == #[trigger] t[k] by {
        assert(s.subrange(i, i + 8)[k] == s[i + k]);
    }
    assert(t[0] == le4(lo)[0] && t[1] == le4(lo)[1] && t[2] == le4(lo)[2] && t[3] == le4(lo)[3]);
    assert(t[4] == le4(hi)[0] && t[5] == le4(hi)[1] && t[6] == le4(hi)[2] && t[7] == le4(hi)[3]);
    assert(s[i + 0] == t[0] && s[i + 1] == t[1] && s[i + 2] == t[2] && s[i + 3] == t[3]);
    assert(s[i + 4] == t[4] && s[i + 5] == t[5] && s[i + 6] == t[6] && s[i + 7] == t[7]);
    lemma_rd_le4_at(s, i, lo);
    lemma_rd_le4_at(s, i + 4, hi);
}

} // verus!

//! Byte-level vocabulary shared by the codecs: splicing bytes into a buffer
//! and little-endian integers, with the executable writers and readers.

use vstd::prelude::*;

verus! {

/// `s` with the bytes from `at` on replaced by `data`.
pub open spec fn splice(s: Seq<u8>, at: int, data: Seq<u8>) -> Seq<u8> {
    s.take(at) + data + s.skip(at + data.len())
}

/// Little-endian bytes of a `u16`.
pub open spec fn le16(v: u16) -> Seq<u8> {
    seq![v as u8, (v >> 8u16) as u8]
}

/// Little-endian bytes of a `u32`.
pub open spec fn le32(v: u32) -> Seq<u8> {
    seq![v as u8, (v >> 8u32) as u8, (v >> 16u32) as u8, (v >> 24u32) as u8]
}

/// Little-endian bytes of a `u64`.
pub open spec fn le64(v: u64) -> Seq<u8> {
    seq![
        v as u8,
        (v >> 8u64) as u8,
        (v >> 16u64) as u8,
        (v >> 24u64) as u8,
        (v >> 32u64) as u8,
        (v >> 40u64) as u8,
        (v >> 48u64) as u8,
        (v >> 56u64) as u8,
    ]
}

/// The `u16` stored little-endian in `s` at `at`.
pub open spec fn u16_at(s: Seq<u8>, at: int) -> u16 {
    (s[at] as u16) | ((s[at + 1] as u16) << 8u16)
}

/// The `u32` stored little-endian in `s` at `at`.
pub open spec fn u32_at(s: Seq<u8>, at: int) -> u32 {
    (s[at] as u32) | ((s[at + 1] as u32) << 8u32) | ((s[at + 2] as u32) << 16u32) | ((s[at
        + 3] as u32) << 24u32)
}

/// The `u64` stored little-endian in `s` at `at`.
pub open spec fn u64_at(s: Seq<u8>, at: int) -> u64 {
    (s[at] as u64) | ((s[at + 1] as u64) << 8u64) | ((s[at + 2] as u64) << 16u64) | ((s[at
        + 3] as u64) << 24u64) | ((s[at + 4] as u64) << 32u64) | ((s[at + 5] as u64) << 40u64)
        | ((s[at + 6] as u64) << 48u64) | ((s[at + 7] as u64) << 56u64)
}

/// Reading back what `le16` wrote gives the value.
pub proof fn lemma_le16_roundtrip(v: u16)
    ensures
        le16(v).len() == 2,
        u16_at(le16(v), 0) == v,
{
    let b0 = v as u8;
    let b1 = (v >> 8u16) as u8;
    assert(((v as u8) as u16) | ((((v >> 8u16) as u8) as u16) << 8u16) == v) by (bit_vector);
    assert(u16_at(le16(v), 0) == (b0 as u16) | ((b1 as u16) << 8u16));
}

/// Reading back what `le32` wrote gives the value.
pub proof fn lemma_le32_roundtrip(v: u32)
    ensures
        le32(v).len() == 4,
        u32_at(le32(v), 0) == v,
{
    let s = le32(v);
    assert((((v as u8) as u32) | ((((v >> 8u32) as u8) as u32) << 8u32) | ((((v >> 16u32) as u8)
        as u32) << 16u32) | ((((v >> 24u32) as u8) as u32) << 24u32)) == v) by (bit_vector);
    assert(u32_at(s, 0) == ((s[0] as u32) | ((s[1] as u32) << 8u32) | ((s[2] as u32) << 16u32)
        | ((s[3] as u32) << 24u32)));
}

/// Reading back what `le64` wrote gives the value.
pub proof fn lemma_le64_roundtrip(v: u64)
    ensures
        le64(v).len() == 8,
        u64_at(le64(v), 0) == v,
{
    assert((((v as u8) as u64) | ((((v >> 8u64) as u8) as u64) << 8u64) | ((((v >> 16u64) as u8)
        as u64) << 16u64) | ((((v >> 24u64) as u8) as u64) << 24u64) | ((((v >> 32u64) as u8)
        as u64) << 32u64) | ((((v >> 40u64) as u8) as u64) << 40u64) | ((((v >> 48u64) as u8)
        as u64) << 48u64) | ((((v >> 56u64) as u8) as u64) << 56u64)) == v) by (bit_vector);
}

/// Writing `x` at `a` and then `y` right after it is writing `x + y` at `a`.
pub proof fn lemma_splice_append(s: Seq<u8>, a: int, x: Seq<u8>, y: Seq<u8>)
    requires
        0 <= a,
        a + x.len() + y.len() <= s.len(),
    ensures
        splice(splice(s, a, x), a + x.len(), y) == splice(s, a, x + y),
        splice(s, a, x + y).len() == s.len(),
{
    assert(splice(splice(s, a, x), a + x.len(), y) =~= splice(s, a, x + y));
}

/// Writing `y` at offset `i` inside what was written at `a` is writing the
/// changed `x` at `a`.
pub proof fn lemma_splice_nested(s: Seq<u8>, a: int, x: Seq<u8>, i: int, y: Seq<u8>)
    requires
        0 <= a,
        0 <= i,
        a + x.len() <= s.len(),
        i + y.len() <= x.len(),
    ensures
        splice(splice(s, a, x), a + i, y) == splice(s, a, splice(x, i, y)),
{
    assert(splice(splice(s, a, x), a + i, y) =~= splice(s, a, splice(x, i, y)));
}

/// Reading inside a part of a concatenation reads that part.
pub proof fn lemma_read_in_middle(pre: Seq<u8>, x: Seq<u8>, post: Seq<u8>)
    ensures
        x.len() >= 2 ==> u16_at(pre + x + post, pre.len() as int) == u16_at(x, 0),
        x.len() >= 4 ==> u32_at(pre + x + post, pre.len() as int) == u32_at(x, 0),
        x.len() >= 8 ==> u64_at(pre + x + post, pre.len() as int) == u64_at(x, 0),
{
    let s = pre + x + post;
    let n = pre.len() as int;
    assert forall|i: int| 0 <= i < x.len() implies #[trigger] s[n + i] == x[i] by {}
    if x.len() >= 8 {
        assert(s[n] == x[0] && s[n + 1] == x[1] && s[n + 2] == x[2] && s[n + 3] == x[3]);
        assert(s[n + 4] == x[4] && s[n + 5] == x[5] && s[n + 6] == x[6] && s[n + 7] == x[7]);
    } else if x.len() >= 4 {
        assert(s[n] == x[0] && s[n + 1] == x[1] && s[n + 2] == x[2] && s[n + 3] == x[3]);
    } else if x.len() >= 2 {
        assert(s[n] == x[0] && s[n + 1] == x[1]);
    }
}

/// Writes `v` little-endian at `at`.
pub fn write_u16_at(buf: &mut [u8], at: usize, v: u16)
    requires
        at + 2 <= old(buf)@.len(),
    ensures
        final(buf)@.len() == old(buf)@.len(),
        final(buf)@ == splice(old(buf)@, at as int, le16(v)),
{
    buf[at] = v as u8;
    buf[at + 1] = (v >> 8u16) as u8;
    assert(buf@ =~= splice(old(buf)@, at as int, le16(v)));
}

/// Writes `v` little-endian at `at`.
pub fn write_u32_at(buf: &mut [u8], at: usize, v: u32)
    requires
        at + 4 <= old(buf)@.len(),
    ensures
        final(buf)@.len() == old(buf)@.len(),
        final(buf)@ == splice(old(buf)@, at as int, le32(v)),
{
    buf[at] = v as u8;
    buf[at + 1] = (v >> 8u32) as u8;
    buf[at + 2] = (v >> 16u32) as u8;
    buf[at + 3] = (v >> 24u32) as u8;
    assert(buf@ =~= splice(old(buf)@, at as int, le32(v)));
}

/// Writes `v` little-endian at `at`.
pub fn write_u64_at(buf: &mut [u8], at: usize, v: u64)
    requires
        at + 8 <= old(buf)@.len(),
    ensures
        final(buf)@.len() == old(buf)@.len(),
        final(buf)@ == splice(old(buf)@, at as int, le64(v)),
{
    buf[at] = v as u8;
    buf[at + 1] = (v >> 8u64) as u8;
    buf[at + 2] = (v >> 16u64) as u8;
    buf[at + 3] = (v >> 24u64) as u8;
    buf[at + 4] = (v >> 32u64) as u8;
    buf[at + 5] = (v >> 40u64) as u8;
    buf[at + 6] = (v >> 48u64) as u8;
    buf[at + 7] = (v >> 56u64) as u8;
    assert(buf@ =~= splice(old(buf)@, at as int, le64(v)));
}

/// Copies `src` into `buf` at `at`.
pub fn write_bytes_at(buf: &mut [u8], at: usize, src: &[u8])
    requires
        at + src@.len() <= old(buf)@.len(),
    ensures
        final(buf)@.len() == old(buf)@.len(),
        final(buf)@ == splice(old(buf)@, at as int, src@),
{
    let len = buf.len();
    let mut i: usize = 0;
    while i < src.len()
        invariant
            len == buf@.len(),
            at + src@.len() <= old(buf)@.len(),
            i <= src@.len(),
            buf@.len() == old(buf)@.len(),
            buf@ == splice(old(buf)@, at as int, src@.take(i as int)),
        decreases src@.len() - i,
    {
        buf[at + i] = src[i];
        i = i + 1;
        assert(buf@ =~= splice(old(buf)@, at as int, src@.take(i as int)));
    }
    assert(src@.take(i as int) =~= src@);
}

/// Reads the little-endian `u16` at `at`.
pub fn read_u16_at(buf: &[u8], at: usize) -> (v: u16)
    requires
        at + 2 <= buf@.len(),
    ensures
        v == u16_at(buf@, at as int),
{
    (buf[at] as u16) | ((buf[at + 1] as u16) << 8u16)
}

/// Reads the little-endian `u32` at `at`.
pub fn read_u32_at(buf: &[u8], at: usize) -> (v: u32)
    requires
        at + 4 <= buf@.len(),
    ensures
        v == u32_at(buf@, at as int),
{
    (buf[at] as u32) | ((buf[at + 1] as u32) << 8u32) | ((buf[at + 2] as u32) << 16u32) | ((buf[at
        + 3] as u32) << 24u32)
}

/// Reads the little-endian `u64` at `at`.
pub fn read_u64_at(buf: &[u8], at: usize) -> (v: u64)
    requires
        at + 8 <= buf@.len(),
    ensures
        v == u64_at(buf@, at as int),
{
    (buf[at] as u64) | ((buf[at + 1] as u64) << 8u64) | ((buf[at + 2] as u64) << 16u64) | ((buf[at
        + 3] as u64) << 24u64) | ((buf[at + 4] as u64) << 32u64) | ((buf[at + 5] as u64) << 40u64)
        | ((buf[at + 6] as u64) << 48u64) | ((buf[at + 7] as u64) << 56u64)
}

} // verus!

use vstd::prelude::*;

verus! {

// Fixed-width integers as bytes, in both byte orders.

/// The big-endian bytes of `v`.
pub open spec fn u16_be(v: u16) -> Seq<u8> {
    seq![(v >> 8u16) as u8, v as u8]
}

/// The little-endian bytes of `v`.
pub open spec fn u16_le(v: u16) -> Seq<u8> {
    seq![v as u8, (v >> 8u16) as u8]
}

/// The big-endian u16 stored at `s[i..i + 2]`.
pub open spec fn be_u16_at(s: Seq<u8>, i: int) -> u16 {
    ((s[i + 0] as u16) << 8u16) | (s[i + 1] as u16)
}

/// The little-endian u16 stored at `s[i..i + 2]`.
pub open spec fn le_u16_at(s: Seq<u8>, i: int) -> u16 {
    (s[i + 0] as u16) | ((s[i + 1] as u16) << 8u16)
}

proof fn lemma_u16_bytes(v: u16)
    ensures
        (((((v >> 8u16) as u8) as u16) << 8u16) | ((v as u8) as u16)) == v,
{
    assert((((((v >> 8u16) as u8) as u16) << 8u16) | ((v as u8) as u16)) == v) by (bit_vector);
}

/// Reading back the big-endian bytes of `v` gives `v`.
pub proof fn lemma_be_u16_roundtrip(s: Seq<u8>, i: int, v: u16)
    requires
        0 <= i,
        i + 2 <= s.len(),
        s.subrange(i, i + 2) == u16_be(v),
    ensures
        be_u16_at(s, i) == v,
{
    assert(s[i + 0] == s.subrange(i, i + 2)[0]);
    assert(s[i + 1] == s.subrange(i, i + 2)[1]);
    lemma_u16_bytes(v);
}


proof fn lemma_u16_le_bytes(v: u16)
    ensures
        (((v as u8) as u16) | ((((v >> 8u16) as u8) as u16) << 8u16)) == v,
{
    assert((((v as u8) as u16) | ((((v >> 8u16) as u8) as u16) << 8u16)) == v) by (bit_vector);
}

/// Reading back the little-endian bytes of `v` gives `v`.
pub proof fn lemma_le_u16_roundtrip(s: Seq<u8>, i: int, v: u16)
    requires
        0 <= i,
        i + 2 <= s.len(),
        s.subrange(i, i + 2) == u16_le(v),
    ensures
        le_u16_at(s, i) == v,
{
    assert(s[i + 0] == s.subrange(i, i + 2)[0]);
    assert(s[i + 1] == s.subrange(i, i + 2)[1]);
    lemma_u16_le_bytes(v);
}

/// Appends the big-endian bytes of `v`.
pub fn push_u16_be(out: &mut Vec<u8>, v: u16)
    ensures
        final(out)@ == old(out)@ + u16_be(v),
{
    out.push((v >> 8u16) as u8);
    out.push(v as u8);
    assert(out@ =~= old(out)@ + u16_be(v));
}

/// Appends the little-endian bytes of `v`.
pub fn push_u16_le(out: &mut Vec<u8>, v: u16)
    ensures
        final(out)@ == old(out)@ + u16_le(v),
{
    out.push(v as u8);
    out.push((v >> 8u16) as u8);
    assert(out@ =~= old(out)@ + u16_le(v));
}

/// The big-endian u16 at `data[off..off + 2]`.
pub fn get_u16_be(data: &[u8], off: usize) -> (r: u16)
    requires
        off + 2 <= data@.len(),
    ensures
        r == be_u16_at(data@, off as int),
{
    ((data[off + 0] as u16) << 8u16) | (data[off + 1] as u16)
}

/// The little-endian u16 at `data[off..off + 2]`.
pub fn get_u16_le(data: &[u8], off: usize) -> (r: u16)
    requires
        off + 2 <= data@.len(),
    ensures
        r == le_u16_at(data@, off as int),
{
    (data[off + 0] as u16) | ((data[off + 1] as u16) << 8u16)
}

/// The big-endian bytes of `v`.
pub open spec fn u32_be(v: u32) -> Seq<u8> {
    seq![(v >> 24u32) as u8, (v >> 16u32) as u8, (v >> 8u32) as u8, v as u8]
}

/// The little-endian bytes of `v`.
pub open spec fn u32_le(v: u32) -> Seq<u8> {
    seq![v as u8, (v >> 8u32) as u8, (v >> 16u32) as u8, (v >> 24u32) as u8]
}

/// The big-endian u32 stored at `s[i..i + 4]`.
pub open spec fn be_u32_at(s: Seq<u8>, i: int) -> u32 {
    ((s[i + 0] as u32) << 24u32) | ((s[i + 1] as u32) << 16u32) | ((s[i + 2] as u32) << 8u32) | (s[i + 3] as u32)
}

/// The little-endian u32 stored at `s[i..i + 4]`.
pub open spec fn le_u32_at(s: Seq<u8>, i: int) -> u32 {
    (s[i + 0] as u32) | ((s[i + 1] as u32) << 8u32) | ((s[i + 2] as u32) << 16u32) | ((s[i + 3] as u32) << 24u32)
}

proof fn lemma_u32_bytes(v: u32)
    ensures
        (((((v >> 24u32) as u8) as u32) << 24u32) | ((((v >> 16u32) as u8) as u32) << 16u32) | ((((v >> 8u32) as u8) as u32) << 8u32) | ((v as u8) as u32)) == v,
{
    assert((((((v >> 24u32) as u8) as u32) << 24u32) | ((((v >> 16u32) as u8) as u32) << 16u32) | ((((v >> 8u32) as u8) as u32) << 8u32) | ((v as u8) as u32)) == v) by (bit_vector);
}

/// Reading back the big-endian bytes of `v` gives `v`.
pub proof fn lemma_be_u32_roundtrip(s: Seq<u8>, i: int, v: u32)
    requires
        0 <= i,
        i + 4 <= s.len(),
        s.subrange(i, i + 4) == u32_be(v),
    ensures
        be_u32_at(s, i) == v,
{
    assert(s[i + 0] == s.subrange(i, i + 4)[0]);
    assert(s[i + 1] == s.subrange(i, i + 4)[1]);
    assert(s[i + 2] == s.subrange(i, i + 4)[2]);
    assert(s[i + 3] == s.subrange(i, i + 4)[3]);
    lemma_u32_bytes(v);
}


proof fn lemma_u32_le_bytes(v: u32)
    ensures
        (((v as u8) as u32) | ((((v >> 8u32) as u8) as u32) << 8u32) | ((((v >> 16u32) as u8) as u32) << 16u32) | ((((v >> 24u32) as u8) as u32) << 24u32)) == v,
{
    assert((((v as u8) as u32) | ((((v >> 8u32) as u8) as u32) << 8u32) | ((((v >> 16u32) as u8) as u32) << 16u32) | ((((v >> 24u32) as u8) as u32) << 24u32)) == v) by (bit_vector);
}

/// Reading back the little-endian bytes of `v` gives `v`.
pub proof fn lemma_le_u32_roundtrip(s: Seq<u8>, i: int, v: u32)
    requires
        0 <= i,
        i + 4 <= s.len(),
        s.subrange(i, i + 4) == u32_le(v),
    ensures
        le_u32_at(s, i) == v,
{
    assert(s[i + 0] == s.subrange(i, i + 4)[0]);
    assert(s[i + 1] == s.subrange(i, i + 4)[1]);
    assert(s[i + 2] == s.subrange(i, i + 4)[2]);
    assert(s[i + 3] == s.subrange(i, i + 4)[3]);
    lemma_u32_le_bytes(v);
}

/// Appends the big-endian bytes of `v`.
pub fn push_u32_be(out: &mut Vec<u8>, v: u32)
    ensures
        final(out)@ == old(out)@ + u32_be(v),
{
    out.push((v >> 24u32) as u8);
    out.push((v >> 16u32) as u8);
    out.push((v >> 8u32) as u8);
    out.push(v as u8);
    assert(out@ =~= old(out)@ + u32_be(v));
}

/// Appends the little-endian bytes of `v`.
pub fn push_u32_le(out: &mut Vec<u8>, v: u32)
    ensures
        final(out)@ == old(out)@ + u32_le(v),
{
    out.push(v as u8);
    out.push((v >> 8u32) as u8);
    out.push((v >> 16u32) as u8);
    out.push((v >> 24u32) as u8);
    assert(out@ =~= old(out)@ + u32_le(v));
}

/// The big-endian u32 at `data[off..off + 4]`.
pub fn get_u32_be(data: &[u8], off: usize) -> (r: u32)
    requires
        off + 4 <= data@.len(),
    ensures
        r == be_u32_at(data@, off as int),
{
    ((data[off + 0] as u32) << 24u32) | ((data[off + 1] as u32) << 16u32) | ((data[off + 2] as u32) << 8u32) | (data[off + 3] as u32)
}

/// The little-endian u32 at `data[off..off + 4]`.
pub fn get_u32_le(data: &[u8], off: usize) -> (r: u32)
    requires
        off + 4 <= data@.len(),
    ensures
        r == le_u32_at(data@, off as int),
{
    (data[off + 0] as u32) | ((data[off + 1] as u32) << 8u32) | ((data[off + 2] as u32) << 16u32) | ((data[off + 3] as u32) << 24u32)
}

/// The big-endian bytes of `v`.
pub open spec fn u64_be(v: u64) -> Seq<u8> {
    seq![(v >> 56u64) as u8, (v >> 48u64) as u8, (v >> 40u64) as u8, (v >> 32u64) as u8, (v >> 24u64) as u8, (v >> 16u64) as u8, (v >> 8u64) as u8, v as u8]
}

/// The little-endian bytes of `v`.
pub open spec fn u64_le(v: u64) -> Seq<u8> {
    seq![v as u8, (v >> 8u64) as u8, (v >> 16u64) as u8, (v >> 24u64) as u8, (v >> 32u64) as u8, (v >> 40u64) as u8, (v >> 48u64) as u8, (v >> 56u64) as u8]
}

/// The big-endian u64 stored at `s[i..i + 8]`.
pub open spec fn be_u64_at(s: Seq<u8>, i: int) -> u64 {
    ((s[i + 0] as u64) << 56u64) | ((s[i + 1] as u64) << 48u64) | ((s[i + 2] as u64) << 40u64) | ((s[i + 3] as u64) << 32u64) | ((s[i + 4] as u64) << 24u64) | ((s[i + 5] as u64) << 16u64) | ((s[i + 6] as u64) << 8u64) | (s[i + 7] as u64)
}

/// The little-endian u64 stored at `s[i..i + 8]`.
pub open spec fn le_u64_at(s: Seq<u8>, i: int) -> u64 {
    (s[i + 0] as u64) | ((s[i + 1] as u64) << 8u64) | ((s[i + 2] as u64) << 16u64) | ((s[i + 3] as u64) << 24u64) | ((s[i + 4] as u64) << 32u64) | ((s[i + 5] as u64) << 40u64) | ((s[i + 6] as u64) << 48u64) | ((s[i + 7] as u64) << 56u64)
}

proof fn lemma_u64_bytes(v: u64)
    ensures
        (((((v >> 56u64) as u8) as u64) << 56u64) | ((((v >> 48u64) as u8) as u64) << 48u64) | ((((v >> 40u64) as u8) as u64) << 40u64) | ((((v >> 32u64) as u8) as u64) << 32u64) | ((((v >> 24u64) as u8) as u64) << 24u64) | ((((v >> 16u64) as u8) as u64) << 16u64) | ((((v >> 8u64) as u8) as u64) << 8u64) | ((v as u8) as u64)) == v,
{
    assert((((((v >> 56u64) as u8) as u64) << 56u64) | ((((v >> 48u64) as u8) as u64) << 48u64) | ((((v >> 40u64) as u8) as u64) << 40u64) | ((((v >> 32u64) as u8) as u64) << 32u64) | ((((v >> 24u64) as u8) as u64) << 24u64) | ((((v >> 16u64) as u8) as u64) << 16u64) | ((((v >> 8u64) as u8) as u64) << 8u64) | ((v as u8) as u64)) == v) by (bit_vector);
}

/// Reading back the big-endian bytes of `v` gives `v`.
pub proof fn lemma_be_u64_roundtrip(s: Seq<u8>, i: int, v: u64)
    requires
        0 <= i,
        i + 8 <= s.len(),
        s.subrange(i, i + 8) == u64_be(v),
    ensures
        be_u64_at(s, i) == v,
{
    assert(s[i + 0] == s.subrange(i, i + 8)[0]);
    assert(s[i + 1] == s.subrange(i, i + 8)[1]);
    assert(s[i + 2] == s.subrange(i, i + 8)[2]);
    assert(s[i + 3] == s.subrange(i, i + 8)[3]);
    assert(s[i + 4] == s.subrange(i, i + 8)[4]);
    assert(s[i + 5] == s.subrange(i, i + 8)[5]);
    assert(s[i + 6] == s.subrange(i, i + 8)[6]);
    assert(s[i + 7] == s.subrange(i, i + 8)[7]);
    lemma_u64_bytes(v);
}


proof fn lemma_u64_le_bytes(v: u64)
    ensures
        (((v as u8) as u64) | ((((v >> 8u64) as u8) as u64) << 8u64) | ((((v >> 16u64) as u8) as u64) << 16u64) | ((((v >> 24u64) as u8) as u64) << 24u64) | ((((v >> 32u64) as u8) as u64) << 32u64) | ((((v >> 40u64) as u8) as u64) << 40u64) | ((((v >> 48u64) as u8) as u64) << 48u64) | ((((v >> 56u64) as u8) as u64) << 56u64)) == v,
{
    assert((((v as u8) as u64) | ((((v >> 8u64) as u8) as u64) << 8u64) | ((((v >> 16u64) as u8) as u64) << 16u64) | ((((v >> 24u64) as u8) as u64) << 24u64) | ((((v >> 32u64) as u8) as u64) << 32u64) | ((((v >> 40u64) as u8) as u64) << 40u64) | ((((v >> 48u64) as u8) as u64) << 48u64) | ((((v >> 56u64) as u8) as u64) << 56u64)) == v) by (bit_vector);
}

/// Reading back the little-endian bytes of `v` gives `v`.
pub proof fn lemma_le_u64_roundtrip(s: Seq<u8>, i: int, v: u64)
    requires
        0 <= i,
        i + 8 <= s.len(),
        s.subrange(i, i + 8) == u64_le(v),
    ensures
        le_u64_at(s, i) == v,
{
    assert(s[i + 0] == s.subrange(i, i + 8)[0]);
    assert(s[i + 1] == s.subrange(i, i + 8)[1]);
    assert(s[i + 2] == s.subrange(i, i + 8)[2]);
    assert(s[i + 3] == s.subrange(i, i + 8)[3]);
    assert(s[i + 4] == s.subrange(i, i + 8)[4]);
    assert(s[i + 5] == s.subrange(i, i + 8)[5]);
    assert(s[i + 6] == s.subrange(i, i + 8)[6]);
    assert(s[i + 7] == s.subrange(i, i + 8)[7]);
    lemma_u64_le_bytes(v);
}

/// Appends the big-endian bytes of `v`.
pub fn push_u64_be(out: &mut Vec<u8>, v: u64)
    ensures
        final(out)@ == old(out)@ + u64_be(v),
{
    out.push((v >> 56u64) as u8);
    out.push((v >> 48u64) as u8);
    out.push((v >> 40u64) as u8);
    out.push((v >> 32u64) as u8);
    out.push((v >> 24u64) as u8);
    out.push((v >> 16u64) as u8);
    out.push((v >> 8u64) as u8);
    out.push(v as u8);
    assert(out@ =~= old(out)@ + u64_be(v));
}

/// Appends the little-endian bytes of `v`.
pub fn push_u64_le(out: &mut Vec<u8>, v: u64)
    ensures
        final(out)@ == old(out)@ + u64_le(v),
{
    out.push(v as u8);
    out.push((v >> 8u64) as u8);
    out.push((v >> 16u64) as u8);
    out.push((v >> 24u64) as u8);
    out.push((v >> 32u64) as u8);
    out.push((v >> 40u64) as u8);
    out.push((v >> 48u64) as u8);
    out.push((v >> 56u64) as u8);
    assert(out@ =~= old(out)@ + u64_le(v));
}

/// The big-endian u64 at `data[off..off + 8]`.
pub fn get_u64_be(data: &[u8], off: usize) -> (r: u64)
    requires
        off + 8 <= data@.len(),
    ensures
        r == be_u64_at(data@, off as int),
{
    ((data[off + 0] as u64) << 56u64) | ((data[off + 1] as u64) << 48u64) | ((data[off + 2] as u64) << 40u64) | ((data[off + 3] as u64) << 32u64) | ((data[off + 4] as u64) << 24u64) | ((data[off + 5] as u64) << 16u64) | ((data[off + 6] as u64) << 8u64) | (data[off + 7] as u64)
}

/// The little-endian u64 at `data[off..off + 8]`.
pub fn get_u64_le(data: &[u8], off: usize) -> (r: u64)
    requires
        off + 8 <= data@.len(),
    ensures
        r == le_u64_at(data@, off as int),
{
    (data[off + 0] as u64) | ((data[off + 1] as u64) << 8u64) | ((data[off + 2] as u64) << 16u64) | ((data[off + 3] as u64) << 24u64) | ((data[off + 4] as u64) << 32u64) | ((data[off + 5] as u64) << 40u64) | ((data[off + 6] as u64) << 48u64) | ((data[off + 7] as u64) << 56u64)
}

/// The low and high nibbles of a byte are below 16; zero and 15 keep their
/// low nibble.
pub proof fn lemma_nibbles(b: u8)
    by (bit_vector)
    ensures
        b & 0x0F < 16,
        (b >> 4u8) & 0x0F < 16,
        0u8 & 0x0F == 0u8,
        (0u8 >> 4u8) & 0x0F == 0u8,
        15u8 & 0x0F == 15u8,
{
}

/// An `i32` read back from its `u32` bits is itself.
pub proof fn lemma_i32_bits(x: i32)
    by (bit_vector)
    ensures
        ((x as u32) as i32) == x,
{
}

/// An `i16` or an `i64` read back from its unsigned bits is itself.
pub proof fn lemma_i16_i64_bits(a: i16, b: i64)
    by (bit_vector)
    ensures
        ((a as u16) as i16) == a,
        ((b as u64) as i64) == b,
{
}

/// A number below 32 is its own low five bits.
pub proof fn lemma_low5(x: i32)
    by (bit_vector)
    requires
        0 <= x < 32,
    ensures
        x & 31 == x,
{
}

} // verus!

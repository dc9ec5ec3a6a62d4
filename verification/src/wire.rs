//! Fixed-width integers on the wire, in both byte orders.

use vstd::prelude::*;

verus! {

/// The two bytes of `v`, least significant first.
pub open spec fn le16(v: u16) -> Seq<u8> {
    seq![(v % 256) as u8, (v / 256) as u8]
}

/// The two bytes of `v`, most significant first.
pub open spec fn be16(v: u16) -> Seq<u8> {
    seq![(v / 256) as u8, (v % 256) as u8]
}

/// The four bytes of `v`, least significant first.
pub open spec fn le32(v: u32) -> Seq<u8> {
    seq![
        (v % 256) as u8,
        (v / 0x100 % 256) as u8,
        (v / 0x1_0000 % 256) as u8,
        (v / 0x100_0000) as u8,
    ]
}

/// The four bytes of `v`, most significant first.
pub open spec fn be32(v: u32) -> Seq<u8> {
    seq![
        (v / 0x100_0000) as u8,
        (v / 0x1_0000 % 256) as u8,
        (v / 0x100 % 256) as u8,
        (v % 256) as u8,
    ]
}

/// The little-endian 16-bit value at offset `i` of `s`.
pub open spec fn le16_at(s: Seq<u8>, i: int) -> u16 {
    (s[i] + s[i + 1] * 256) as u16
}

/// The big-endian 16-bit value at offset `i` of `s`.
pub open spec fn be16_at(s: Seq<u8>, i: int) -> u16 {
    (s[i] * 256 + s[i + 1]) as u16
}

/// The little-endian 32-bit value at offset `i` of `s`.
pub open spec fn le32_at(s: Seq<u8>, i: int) -> u32 {
    (s[i] + s[i + 1] * 0x100 + s[i + 2] * 0x1_0000 + s[i + 3] * 0x100_0000) as u32
}

/// The big-endian 32-bit value at offset `i` of `s`.
pub open spec fn be32_at(s: Seq<u8>, i: int) -> u32 {
    (s[i] * 0x100_0000 + s[i + 1] * 0x1_0000 + s[i + 2] * 0x100 + s[i + 3]) as u32
}

/// `n` zero bytes.
pub open spec fn zeros(n: nat) -> Seq<u8> {
    Seq::new(n, |i: int| 0u8)
}

/// Reading back a written little-endian 16-bit value.
pub proof fn lemma_le16_round_trip(v: u16)
    ensures
        le16_at(le16(v), 0) == v,
{
}

/// Reading back a written big-endian 16-bit value.
pub proof fn lemma_be16_round_trip(v: u16)
    ensures
        be16_at(be16(v), 0) == v,
{
}

/// Reading back a written little-endian 32-bit value.
pub proof fn lemma_le32_round_trip(v: u32)
    ensures
        le32_at(le32(v), 0) == v,
{
}

/// Reading back a written big-endian 32-bit value.
pub proof fn lemma_be32_round_trip(v: u32)
    ensures
        be32_at(be32(v), 0) == v,
{
}

/// A little-endian 16-bit value reads back wherever it was written.
pub proof fn lemma_le16_within(s: Seq<u8>, i: int, v: u16)
    requires
        0 <= i,
        i + 2 <= s.len(),
        s.subrange(i, i + 2) == le16(v),
    ensures
        le16_at(s, i) == v,
{
    let part = s.subrange(i, i + 2);
    assert(s[i] == part[0] && s[i + 1] == part[1]);
    lemma_le16_round_trip(v);
}

/// A little-endian 32-bit value reads back wherever it was written.
pub proof fn lemma_le32_within(s: Seq<u8>, i: int, v: u32)
    requires
        0 <= i,
        i + 4 <= s.len(),
        s.subrange(i, i + 4) == le32(v),
    ensures
        le32_at(s, i) == v,
{
    let part = s.subrange(i, i + 4);
    assert(s[i] == part[0] && s[i + 1] == part[1] && s[i + 2] == part[2] && s[i + 3] == part[3]);
    lemma_le32_round_trip(v);
}

/// Four bytes read as a little-endian value are the bytes that value is written as.
pub proof fn lemma_le32_bytes(s: Seq<u8>, i: int)
    requires
        0 <= i,
        i + 4 <= s.len(),
    ensures
        le32(le32_at(s, i)) == s.subrange(i, i + 4),
{
    let v = le32_at(s, i);
    let (a, b, c, d) = (s[i] as int, s[i + 1] as int, s[i + 2] as int, s[i + 3] as int);
    assert(v == a + b * 0x100 + c * 0x1_0000 + d * 0x100_0000);
    assert(v % 256 == a);
    assert(v as int / 0x100 == b + c * 0x100 + d * 0x1_0000);
    assert(v / 0x100 % 256 == b);
    assert(v as int / 0x1_0000 == c + d * 0x100);
    assert(v / 0x1_0000 % 256 == c);
    assert(v / 0x100_0000 == d);
    assert(le32(v) =~= s.subrange(i, i + 4));
}

/// A big-endian 16-bit value reads back wherever it was written.
pub proof fn lemma_be16_within(s: Seq<u8>, i: int, v: u16)
    requires
        0 <= i,
        i + 2 <= s.len(),
        s.subrange(i, i + 2) == be16(v),
    ensures
        be16_at(s, i) == v,
{
    let part = s.subrange(i, i + 2);
    assert(s[i] == part[0] && s[i + 1] == part[1]);
    lemma_be16_round_trip(v);
}

/// A big-endian 32-bit value reads back wherever it was written.
pub proof fn lemma_be32_within(s: Seq<u8>, i: int, v: u32)
    requires
        0 <= i,
        i + 4 <= s.len(),
        s.subrange(i, i + 4) == be32(v),
    ensures
        be32_at(s, i) == v,
{
    let part = s.subrange(i, i + 4);
    assert(s[i] == part[0] && s[i + 1] == part[1] && s[i + 2] == part[2] && s[i + 3] == part[3]);
    lemma_be32_round_trip(v);
}

/// Four bytes read as a big-endian value are the bytes that value is written as.
pub proof fn lemma_be32_bytes(s: Seq<u8>, i: int)
    requires
        0 <= i,
        i + 4 <= s.len(),
    ensures
        be32(be32_at(s, i)) == s.subrange(i, i + 4),
{
    let v = be32_at(s, i);
    let (a, b, c, d) = (s[i] as int, s[i + 1] as int, s[i + 2] as int, s[i + 3] as int);
    assert(v == a * 0x100_0000 + b * 0x1_0000 + c * 0x100 + d);
    assert(v / 0x100_0000 == a);
    assert(v as int / 0x1_0000 == a * 0x100 + b);
    assert(v / 0x1_0000 % 256 == b);
    assert(v as int / 0x100 == a * 0x1_0000 + b * 0x100 + c);
    assert(v / 0x100 % 256 == c);
    assert(v % 256 == d);
    assert(be32(v) =~= s.subrange(i, i + 4));
}

/// The signed value of a 32-bit word.
pub open spec fn signed(v: u32) -> i32 {
    if v >= 0x8000_0000 {
        (v - 0x1_0000_0000) as i32
    } else {
        v as i32
    }
}

/// The 32-bit word of a signed value.
pub open spec fn word(v: i32) -> u32 {
    if v < 0 {
        (v + 0x1_0000_0000) as u32
    } else {
        v as u32
    }
}

/// The signed value of a 32-bit word.
pub fn to_signed(v: u32) -> (s: i32)
    ensures
        s == signed(v),
{
    if v >= 0x8000_0000 {
        (v as i64 - 0x1_0000_0000) as i32
    } else {
        v as i32
    }
}

/// The 32-bit word of a signed value.
pub fn to_word(v: i32) -> (w: u32)
    ensures
        w == word(v),
{
    if v < 0 {
        (v as i64 + 0x1_0000_0000) as u32
    } else {
        v as u32
    }
}

/// Appends a slice.
pub fn put(out: &mut Vec<u8>, bytes: &[u8])
    ensures
        final(out)@ == old(out)@ + bytes@,
{
    let ghost before = out@;
    out.extend_from_slice(bytes);
    assert(out@ =~= before + bytes@);
}

/// Appends `n` zero bytes.
pub fn put_zeros(out: &mut Vec<u8>, n: usize)
    ensures
        final(out)@ == old(out)@ + zeros(n as nat),
{
    let ghost before = out@;
    let mut i: usize = 0;
    while i < n
        invariant
            i <= n,
            out@ =~= before + zeros(i as nat),
        decreases n - i,
    {
        out.push(0);
        i += 1;
    }
}

/// Appends a little-endian 16-bit value.
pub fn put_le16(out: &mut Vec<u8>, v: u16)
    ensures
        final(out)@ == old(out)@ + le16(v),
{
    let ghost before = out@;
    out.push((v % 256) as u8);
    out.push((v / 256) as u8);
    assert(out@ =~= before + le16(v));
}

/// Appends a big-endian 16-bit value.
pub fn put_be16(out: &mut Vec<u8>, v: u16)
    ensures
        final(out)@ == old(out)@ + be16(v),
{
    let ghost before = out@;
    out.push((v / 256) as u8);
    out.push((v % 256) as u8);
    assert(out@ =~= before + be16(v));
}

/// Appends a little-endian 32-bit value.
pub fn put_le32(out: &mut Vec<u8>, v: u32)
    ensures
        final(out)@ == old(out)@ + le32(v),
{
    let ghost before = out@;
    out.push((v % 256) as u8);
    out.push((v / 0x100 % 256) as u8);
    out.push((v / 0x1_0000 % 256) as u8);
    out.push((v / 0x100_0000) as u8);
    assert(out@ =~= before + le32(v));
}

/// Appends a big-endian 32-bit value.
pub fn put_be32(out: &mut Vec<u8>, v: u32)
    ensures
        final(out)@ == old(out)@ + be32(v),
{
    let ghost before = out@;
    out.push((v / 0x100_0000) as u8);
    out.push((v / 0x1_0000 % 256) as u8);
    out.push((v / 0x100 % 256) as u8);
    out.push((v % 256) as u8);
    assert(out@ =~= before + be32(v));
}

/// Reads a little-endian 16-bit value.
pub fn get_le16(s: &[u8], i: usize) -> (v: u16)
    requires
        i + 2 <= s@.len(),
    ensures
        v == le16_at(s@, i as int),
{
    s[i] as u16 + s[i + 1] as u16 * 256
}

/// Reads a big-endian 16-bit value.
pub fn get_be16(s: &[u8], i: usize) -> (v: u16)
    requires
        i + 2 <= s@.len(),
    ensures
        v == be16_at(s@, i as int),
{
    s[i] as u16 * 256 + s[i + 1] as u16
}

/// Reads a little-endian 32-bit value.
pub fn get_le32(s: &[u8], i: usize) -> (v: u32)
    requires
        i + 4 <= s@.len(),
    ensures
        v == le32_at(s@, i as int),
{
    s[i] as u32 + s[i + 1] as u32 * 0x100 + s[i + 2] as u32 * 0x1_0000 + s[i + 3] as u32
        * 0x100_0000
}

/// Reads a big-endian 32-bit value.
pub fn get_be32(s: &[u8], i: usize) -> (v: u32)
    requires
        i + 4 <= s@.len(),
    ensures
        v == be32_at(s@, i as int),
{
    s[i] as u32 * 0x100_0000 + s[i + 1] as u32 * 0x1_0000 + s[i + 2] as u32 * 0x100 + s[i + 3] as u32
}

/// The first `n` bytes of `s`, or all of them when there are fewer.
pub open spec fn prefix(s: Seq<u8>, n: int) -> Seq<u8> {
    if n < s.len() {
        s.take(n)
    } else {
        s
    }
}

/// Copies the first `n` bytes of `s`, or all of them when there are fewer.
pub fn take_prefix(s: &[u8], n: usize) -> (out: Vec<u8>)
    ensures
        out@ == prefix(s@, n as int),
{
    let end: usize = if n < s.len() {
        n
    } else {
        s.len()
    };
    let mut out: Vec<u8> = Vec::new();
    let mut i: usize = 0;
    while i < end
        invariant
            i <= end <= s@.len(),
            out@ =~= s@.take(i as int),
        decreases end - i,
    {
        out.push(s[i]);
        i += 1;
    }
    assert(out@ =~= prefix(s@, n as int));
    out
}

} // verus!

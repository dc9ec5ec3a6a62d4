//! Fixed-width integers on the wire.

use crate::wire::{
    get_be16, get_be32, get_le16, get_le32, put, put_be16, put_be32, put_le16, put_le32, put_zeros,
    take_prefix, to_signed, to_word,
};
use vstd::prelude::*;

verus! {

/// Little-endian values have their low byte first.
pub proof fn law_get_little_endian(s: &[u8], i: usize, v16: u16, v32: u32)
    requires
        call_ensures(get_le16, (s, i), v16),
        call_ensures(get_le32, (s, i), v32),
        i + 4 <= s@.len(),
    ensures
        v16 == s@[i as int] + 256 * s@[i + 1],
        v32 == s@[i as int] + 256 * s@[i + 1] + 65536 * s@[i + 2] + 16777216 * s@[i + 3],
{
}

/// Big-endian values have their high byte first.
pub proof fn law_get_big_endian(s: &[u8], i: usize, v16: u16, v32: u32)
    requires
        call_ensures(get_be16, (s, i), v16),
        call_ensures(get_be32, (s, i), v32),
        i + 4 <= s@.len(),
    ensures
        v16 == 256 * s@[i as int] + s@[i + 1],
        v32 == 16777216 * s@[i as int] + 65536 * s@[i + 1] + 256 * s@[i + 2] + s@[i + 3],
{
}

/// Appending a 16-bit value appends its two bytes.
pub proof fn law_put_16(le: &mut Vec<u8>, be: &mut Vec<u8>, v: u16)
    requires
        call_ensures(put_le16, (le, v), ()),
        call_ensures(put_be16, (be, v), ()),
    ensures
        ({
            let (n, m) = (old(le)@.len() as int, old(be)@.len() as int);
            let (l, b) = (final(le)@, final(be)@);
            &&& l.len() == n + 2 && l.take(n) == old(le)@ && l[n] + 256 * l[n + 1] == v
            &&& b.len() == m + 2 && b.take(m) == old(be)@ && 256 * b[m] + b[m + 1] == v
        }),
{
    assert(final(le)@.take(old(le)@.len() as int) =~= old(le)@);
    assert(final(be)@.take(old(be)@.len() as int) =~= old(be)@);
}

/// Appending a 32-bit value appends its four bytes.
pub proof fn law_put_32(le: &mut Vec<u8>, be: &mut Vec<u8>, v: u32)
    requires
        call_ensures(put_le32, (le, v), ()),
        call_ensures(put_be32, (be, v), ()),
    ensures
        ({
            let (n, m) = (old(le)@.len() as int, old(be)@.len() as int);
            let (l, b) = (final(le)@, final(be)@);
            &&& l.len() == n + 4 && l.take(n) == old(le)@
            &&& l[n] + 256 * l[n + 1] + 65536 * l[n + 2] + 16777216 * l[n + 3] == v
            &&& b.len() == m + 4 && b.take(m) == old(be)@
            &&& 16777216 * b[m] + 65536 * b[m + 1] + 256 * b[m + 2] + b[m + 3] == v
        }),
{
    assert(final(le)@.take(old(le)@.len() as int) =~= old(le)@);
    assert(final(be)@.take(old(be)@.len() as int) =~= old(be)@);
}

/// Appending bytes keeps both parts as they are; zeros are zeros.
pub proof fn law_put_bytes(out: &mut Vec<u8>, bytes: &[u8], pad: &mut Vec<u8>, n: usize, i: int)
    requires
        call_ensures(put, (out, bytes), ()),
        call_ensures(put_zeros, (pad, n), ()),
        0 <= i,
    ensures
        final(out)@.len() == old(out)@.len() + bytes@.len(),
        i < old(out)@.len() ==> final(out)@[i] == old(out)@[i],
        i < bytes@.len() ==> final(out)@[old(out)@.len() + i] == bytes@[i],
        final(pad)@.len() == old(pad)@.len() + n,
        i < old(pad)@.len() ==> final(pad)@[i] == old(pad)@[i],
        i < n ==> final(pad)@[old(pad)@.len() + i] == 0,
{
}

/// A cut keeps the first bytes, as many as were asked for or as there are.
pub proof fn law_take_prefix(s: &[u8], n: usize, out: Vec<u8>, i: int)
    requires
        call_ensures(take_prefix, (s, n), out),
    ensures
        n <= s@.len() ==> out@.len() == n,
        n > s@.len() ==> out@.len() == s@.len(),
        0 <= i < out@.len() ==> out@[i] == s@[i],
{
}

/// Signed values are two's complement, in both directions.
pub proof fn law_two_complement(v: u32, s: i32, t: i32, w: u32)
    requires
        call_ensures(to_signed, (v,), s),
        call_ensures(to_word, (t,), w),
    ensures
        (v - s) % 0x1_0000_0000 == 0,
        (w - t) % 0x1_0000_0000 == 0,
{
}

} // verus!

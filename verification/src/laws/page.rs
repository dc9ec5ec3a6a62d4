//! The calibration page.

use crate::calpage::{
    adc_trim_db, crc16_buypass, crc_bit, crc_byte, crc_from, dac_trim_db, generate_page, page_bytes,
    page_crc_ok, page_of, record_bytes, records_bytes, trim_db, trim_draws, TrimDraws,
    ADC_LEVELS_DBV, DAC_LEVELS_DBV,
};
use crate::rng::unit_draw;
use vstd::prelude::*;

verus! {

/// The 32-bit number at offset `i`, low byte first.
pub open spec fn word_at(s: Seq<u8>, i: int) -> int {
    s[i] + 256 * s[i + 1] + 65536 * s[i + 2] + 16777216 * s[i + 3]
}

/// Whether the record at an offset holds this trim: it lies in the page, and
/// without its sign bit the number is below that of 20.0.
pub open spec fn holds_trim(page: Seq<u8>, offset: int, v: int) -> bool {
    &&& offset + 6 <= page.len()
    &&& word_at(page, offset + 2) == v
    &&& v % 0x8000_0000 < 0x41A0_0000
}

/// Trims are read two bytes into a record, as far as they are plausible.
pub proof fn law_trim(page: &[u8], offset: usize, r: Option<u32>)
    requires
        offset + 6 <= usize::MAX,
        call_ensures(trim_db, (page, offset), r),
    ensures
        r matches Some(v) ==> holds_trim(page@, offset as int, v as int),
        r is None ==> !holds_trim(page@, offset as int, word_at(page@, offset + 2)),
{
}

/// The trims of the input ranges stand from offset 24 on, those of the output
/// ranges from 120, twelve bytes per range and six per channel. What is not
/// there is +8.75 dB and -0.30 dB.
pub proof fn law_range_trims(page: &[u8], range: usize, channel: usize, a: u32, d: u32)
    requires
        120 + 12 * range + 6 * channel + 6 <= usize::MAX,
        call_ensures(adc_trim_db, (page, range, channel), a),
        call_ensures(dac_trim_db, (page, range, channel), d),
    ensures
        ({
            let at = 24 + 12 * range + 6 * channel;
            let v = word_at(page@, at + 2);
            a == (if range < 8 && holds_trim(page@, at, v) {
                v
            } else {
                0x410C_0000
            })
        }),
        ({
            let at = 120 + 12 * range + 6 * channel;
            let v = word_at(page@, at + 2);
            d == (if range < 4 && holds_trim(page@, at, v) {
                v
            } else {
                0xBE99_999A
            })
        }),
{
    if range < 8 {
        assert(crate::calpage::ADC_OFFSETS[range as int] == 24 + 12 * range);
    }
    if range < 4 {
        assert(crate::calpage::DAC_OFFSETS[range as int] == 120 + 12 * range);
    }
}

/// Twice a remainder modulo x^16 + x^15 + x^2 + 1: shifting it out of its 16
/// bits takes the polynomial away.
pub open spec fn doubled(c: u16) -> u16 {
    if c < 0x8000 {
        (2 * c) as u16
    } else {
        ((2 * c - 0x1_0000) as u16) ^ 0x8005
    }
}

/// A step of the register doubles it.
proof fn lemma_doubled(c: u16)
    ensures
        crc_bit(c) == doubled(c),
{
    assert(crc_bit(c) == doubled(c)) by (bit_vector);
}

/// The CRC of nothing is zero; one more byte is added to the high half, and the
/// register doubled eight times.
pub proof fn law_crc_step(data: &[u8], crc: u16, more: &[u8], next: u16)
    requires
        call_ensures(crc16_buypass, (data,), crc),
        call_ensures(crc16_buypass, (more,), next),
        more@.len() == data@.len() + 1,
        more@.drop_last() == data@,
    ensures
        data@.len() == 0 ==> crc == 0,
        next == doubled(
            doubled(
                doubled(
                    doubled(
                        doubled(
                            doubled(doubled(doubled(crc ^ ((256 * more@.last()) as u16)))),
                        ),
                    ),
                ),
            ),
        ),
{
    let b = more@.last();
    assert((b as u16) << 8 == (256 * b) as u16) by (bit_vector);
    reveal_with_fuel(crate::calpage::crc_bits, 9);
    let c0 = crc ^ ((256 * b) as u16);
    let c1 = doubled(c0);
    let c2 = doubled(c1);
    let c3 = doubled(c2);
    let c4 = doubled(c3);
    let c5 = doubled(c4);
    let c6 = doubled(c5);
    let c7 = doubled(c6);
    lemma_doubled(c0);
    lemma_doubled(c1);
    lemma_doubled(c2);
    lemma_doubled(c3);
    lemma_doubled(c4);
    lemma_doubled(c5);
    lemma_doubled(c6);
    lemma_doubled(c7);
}

/// Data with its own CRC behind it has CRC zero.
pub proof fn law_crc_residue(data: &[u8], crc: u16, sealed: &[u8], rest: u16)
    requires
        call_ensures(crc16_buypass, (data,), crc),
        call_ensures(crc16_buypass, (sealed,), rest),
        sealed@.len() == data@.len() + 2,
        sealed@.take(data@.len() as int) == data@,
        256 * sealed@[data@.len() as int] + sealed@[data@.len() as int + 1] == crc,
    ensures
        rest == 0,
{
    let n = data@.len() as int;
    let (hi, lo) = (sealed@[n], sealed@[n + 1]);
    let s = sealed@;
    assert(s.drop_last().drop_last() =~= data@);
    let x = crc_byte(crc, hi);
    assert(crc_from(0, s.drop_last()) == x);
    assert(crc_from(0, s) == crc_byte(x, lo));
    lemma_sealed(crc, hi, lo);
}

/// Eight doublings move a low byte to the high half.
proof fn lemma_low_byte(lo: u16)
    requires
        lo < 256,
    ensures
        crate::calpage::crc_bits(lo, 8) == 256 * lo,
{
    reveal_with_fuel(crate::calpage::crc_bits, 9);
    lemma_doubled(lo);
    lemma_doubled((2 * lo) as u16);
    lemma_doubled((4 * lo) as u16);
    lemma_doubled((8 * lo) as u16);
    lemma_doubled((16 * lo) as u16);
    lemma_doubled((32 * lo) as u16);
    lemma_doubled((64 * lo) as u16);
    lemma_doubled((128 * lo) as u16);
}

/// A register takes itself away.
proof fn lemma_sealed(crc: u16, hi: u8, lo: u8)
    requires
        crc == 256 * hi + lo,
    ensures
        crc_byte(crc_byte(crc, hi), lo) == 0,
{
    assert(crc ^ ((hi as u16) << 8) == lo as u16) by (bit_vector)
        requires
            crc == 256 * hi + lo,
    ;
    lemma_low_byte(lo as u16);
    let f = (256 * lo) as u16;
    assert(f ^ ((lo as u16) << 8) == 0) by (bit_vector)
        requires
            f == 256 * lo,
    ;
    lemma_low_byte(0);
}

/// A page is in order when its last two bytes, high byte first, are the CRC of
/// the others; then no page that differs in one byte is.
pub proof fn law_page_crc(
    page: &[u8; 512],
    ok: bool,
    body: &[u8],
    crc: u16,
    other: &[u8; 512],
    fine: bool,
    at: int,
)
    requires
        call_ensures(page_crc_ok, (page,), ok),
        body@ == page@.take(510),
        call_ensures(crc16_buypass, (body,), crc),
        call_ensures(page_crc_ok, (other,), fine),
        0 <= at < 512,
    ensures
        ok == (256 * page@[510] + page@[511] == crc),
        ok && other@[at] != page@[at] && other@ == page@.update(at, other@[at]) ==> !fine,
{
    if ok && other@[at] != page@[at] && other@ == page@.update(at, other@[at]) {
        crate::calpage::lemma_page_detects_tampering(page@, at, other@[at]);
    }
}

/// The record of a channel: a level in two's complement and a trim, low bytes
/// first.
pub open spec fn is_record(s: Seq<u8>, i: int, level: int, trim: u32) -> bool {
    &&& s[i] + 256 * s[i + 1] == level % 65536
    &&& word_at(s, i + 2) == trim
}

/// The bytes of a number.
proof fn lemma_word(v: u32)
    ensures
        word_at(crate::wire::le32(v), 0) == v,
{
    let n = v as int;
    assert(n % 256 + 256 * (n / 0x100 % 256) + 65536 * (n / 0x1_0000 % 256) + 16777216 * (n
        / 0x100_0000) == n);
}

/// The two records of a range.
proof fn lemma_record(s: Seq<u8>, at: int, levels: Seq<i16>, trims: Seq<(u32, u32)>, i: int)
    requires
        0 <= at,
        0 <= i < trims.len(),
        s.len() >= at + 12 * trims.len(),
        s.subrange(at, at + 12 * trims.len()) == records_bytes(levels, trims),
    ensures
        is_record(s, at + 12 * i, levels[i] as int, trims[i].0),
        is_record(s, at + 12 * i + 6, levels[i] as int, trims[i].1),
    decreases trims.len(),
{
    let n = trims.len() - 1;
    let front = trims.drop_last();
    let all = records_bytes(levels, trims);
    lemma_records_len(levels, front);
    if i < n {
        assert(s.subrange(at, at + 12 * n) =~= records_bytes(levels, front)) by {
            assert forall|j: int| 0 <= j < 12 * n implies s[at + j] == records_bytes(
                levels,
                front,
            )[j] by {
                assert(s.subrange(at, at + 12 * trims.len())[j] == all[j]);
            }
        }
        lemma_record(s, at, levels, front, i);
    } else {
        let (l, r) = (record_bytes(levels[n], trims[n].0), record_bytes(levels[n], trims[n].1));
        lemma_word(trims[n].0);
        lemma_word(trims[n].1);
        assert forall|j: int| 0 <= j < 6 implies #[trigger] l[j] == s[at + 12 * n + j] && r[j]
            == s[at + 12 * n + 6 + j] by {
            assert(s.subrange(at, at + 12 * trims.len())[12 * n + j] == all[12 * n + j]);
            assert(s.subrange(at, at + 12 * trims.len())[12 * n + 6 + j] == all[12 * n + 6 + j]);
        }
        assert(l[0] == s[at + 12 * n] && l[1] == s[at + 12 * n + 1] && l[2] == s[at + 12 * n + 2]
            && l[3] == s[at + 12 * n + 3] && l[4] == s[at + 12 * n + 4] && l[5] == s[at + 12 * n
            + 5]);
        assert(crate::wire::le32(trims[n].0)[0] == l[2]);
        assert(crate::wire::le32(trims[n].1)[0] == r[2]);
    }
}

/// Twelve bytes per range.
proof fn lemma_records_len(levels: Seq<i16>, trims: Seq<(u32, u32)>)
    ensures
        records_bytes(levels, trims).len() == 12 * trims.len(),
    decreases trims.len(),
{
    if trims.len() > 0 {
        lemma_records_len(levels, trims.drop_last());
    }
}

/// A generated page: the header, eight input ranges from 0 to 42 dBV in steps
/// of 6, four output ranges from -12 to 18 dBV in steps of 10, each with the
/// given trims, the end marker, zeros, and a CRC that holds.
pub proof fn law_generated_page(
    adc: &[(u32, u32); 8],
    dac: &[(u32, u32); 4],
    page: [u8; 512],
    ok: bool,
    i: int,
)
    requires
        call_ensures(generate_page, (adc, dac), page),
        call_ensures(page_crc_ok, (&page,), ok),
    ensures
        page@.take(24) == seq![
            0u8, 0, 0, 0, 76, 0, 0, 0, 50, 0, 0, 0, 0x23, 0, 0xAD, 0xDE, 8, 0, 0, 0, 4, 0, 0, 0,
        ],
        0 <= i < 8 ==> is_record(page@, 24 + 12 * i, 6 * i, adc@[i].0) && is_record(
            page@,
            30 + 12 * i,
            6 * i,
            adc@[i].1,
        ),
        0 <= i < 4 ==> is_record(page@, 120 + 12 * i, 10 * i - 12, dac@[i].0) && is_record(
            page@,
            126 + 12 * i,
            10 * i - 12,
            dac@[i].1,
        ),
        page@.subrange(168, 172) == seq![0x11u8, 0, 0xAD, 0xDE],
        172 <= i < 510 ==> page@[i] == 0,
        ok,
{
    let s = page@;
    let a = records_bytes(ADC_LEVELS_DBV@, adc@);
    let d = records_bytes(DAC_LEVELS_DBV@, dac@);
    lemma_records_len(ADC_LEVELS_DBV@, adc@);
    lemma_records_len(DAC_LEVELS_DBV@, dac@);
    assert(s == page_bytes(adc@, dac@));
    assert(s.take(24) =~= seq![
        0u8, 0, 0, 0, 76, 0, 0, 0, 50, 0, 0, 0, 0x23, 0, 0xAD, 0xDE, 8, 0, 0, 0, 4, 0, 0, 0,
    ]);
    assert(s.subrange(24, 120) =~= a);
    assert(s.subrange(120, 168) =~= d);
    assert(s.subrange(168, 172) =~= seq![0x11u8, 0, 0xAD, 0xDE]);
    if 0 <= i < 8 {
        lemma_record(s, 24, ADC_LEVELS_DBV@, adc@, i);
        assert(ADC_LEVELS_DBV[i] == 6 * i);
    }
    if 0 <= i < 4 {
        lemma_record(s, 120, DAC_LEVELS_DBV@, dac@, i);
        assert(DAC_LEVELS_DBV[i] == 10 * i - 12);
    }
}

/// 512 bytes as an array.
pub proof fn law_page_of(bytes: &[u8], page: [u8; 512])
    requires
        bytes@.len() == 512,
        call_ensures(page_of, (bytes,), page),
    ensures
        page@ == bytes@,
{
}

/// Adding to a wrapped number is wrapping the sum.
proof fn lemma_wrapped_sum(x: int, w: u64)
    requires
        w == x % 0x1_0000_0000_0000_0000,
    ensures
        w.wrapping_add(0x9E37_79B9_7F4A_7C15) == (x + 0x9E37_79B9_7F4A_7C15)
            % 0x1_0000_0000_0000_0000,
{
}

/// The state of a seed after `k` draws.
proof fn lemma_unit_state(seed: u64, k: nat)
    ensures
        crate::calpage::unit_state(seed, k) == (seed + k * 0x9E37_79B9_7F4A_7C15)
            % 0x1_0000_0000_0000_0000,
    decreases k,
{
    if k > 0 {
        lemma_unit_state(seed, (k - 1) as nat);
        lemma_wrapped_sum(
            seed + (k - 1) * 0x9E37_79B9_7F4A_7C15,
            crate::calpage::unit_state(seed, (k - 1) as nat),
        );
    } else {
        assert(seed as int % 0x1_0000_0000_0000_0000 == seed);
    }
}

/// The draws that randomize a page are taken one after the other: base, slope
/// and step, left and right of each input range, then base and offset, left and
/// right of each output range.
pub proof fn law_trim_draws(seed: u64, d: TrimDraws, state: &mut u64, k: int, v: u64)
    requires
        call_ensures(trim_draws, (seed,), d),
        call_ensures(unit_draw, (state,), v),
        0 <= k < 29,
        *old(state) == (seed + k * 0x9E37_79B9_7F4A_7C15) % 0x1_0000_0000_0000_0000,
    ensures
        v == (if k == 0 {
            d.adc_base
        } else if k == 1 {
            d.adc_slope
        } else if k == 2 {
            d.atten_step
        } else if k < 19 {
            if k % 2 == 1 {
                d.adc@[(k - 3) / 2].0
            } else {
                d.adc@[(k - 3) / 2].1
            }
        } else if k == 19 {
            d.dac_base
        } else if k == 20 {
            d.rl_offset
        } else {
            if k % 2 == 1 {
                d.dac@[(k - 21) / 2].0
            } else {
                d.dac@[(k - 21) / 2].1
            }
        }),
{
    lemma_unit_state(seed, k as nat);
    let i = (k - 3) / 2;
    let j = (k - 21) / 2;
    if 3 <= k < 19 {
        assert(d.adc@[i] == d.adc@[i]);
        assert(k == 3 + 2 * i || k == 4 + 2 * i);
    }
    if 21 <= k {
        assert(d.dac@[j] == d.dac@[j]);
        assert(k == 21 + 2 * j || k == 22 + 2 * j);
    }
}

} // verus!

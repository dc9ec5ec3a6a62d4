//! The 512-byte factory calibration page served through registers 0x0D/0x19.
//!
//! Layout (host byte order: the wire carries each 4-byte word reversed):
//!
//! ```text
//! 0x000  u32 = 0          version/flags
//! 0x004  u32 = 76         payload length in 16-bit words (0x010..0x0A8)
//! 0x008  u32 = 50         unknown constant (schema id?)
//! 0x00C  u16 = 0x0023     block marker, then u16 = 0xDEAD sentinel
//! 0x010  u32 = 8          ADC range count
//! 0x014  u32 = 4          DAC range count
//! 0x018  8 x { i16 level dBV; f32 trim dB } L then R   ADC records
//! 0x078  4 x { i16 level dBV; f32 trim dB } L then R   DAC records
//! 0x0A8  u16 = 0x0011     end marker, then u16 = 0xDEAD sentinel
//! 0x0AC  zeros
//! 0x1FE  u16 big-endian   CRC-16/BUYPASS (poly 0x8005, init 0, unreflected)
//!                          over bytes [0x000..0x1FE)
//! ```
//!
//! The CRC makes the page self-validating: a page failing it is rejected by
//! the official app as invalid calibration data. Trims are handled as the bit
//! patterns of their IEEE 754 single-precision values.

use crate::rng::{splitmix64_of, unit_draw, GOLDEN_GAMMA};
use crate::wire::{
    be16, be16_at, get_be16, get_le32, le16, le32, le32_at, lemma_le32_within, put_be16, put_le16,
    put_le32, put_zeros, zeros,
};
use vstd::prelude::*;

verus! {

/// Bytes of a calibration page.
pub const PAGE_LEN: usize = 512;

/// ADC record byte offsets, indexed by input-range register value (0..=7).
pub const ADC_OFFSETS: [usize; 8] = [24, 36, 48, 60, 72, 84, 96, 108];

/// DAC record byte offsets, indexed by output-range register value (0..=3).
pub const DAC_OFFSETS: [usize; 4] = [120, 132, 144, 156];

/// Full-scale input levels in dBV.
pub const ADC_LEVELS_DBV: [i16; 8] = [0, 6, 12, 18, 24, 30, 36, 42];

/// Full-scale output levels in dBV.
pub const DAC_LEVELS_DBV: [i16; 4] = [-12, -2, 8, 18];

/// Nominal ADC trim, +8.75 dB, used when a record does not decode.
pub const NOMINAL_ADC_DB: u32 = 0x410C_0000;

/// Nominal DAC trim, -0.30 dB, used when a record does not decode.
pub const NOMINAL_DAC_DB: u32 = 0xBE99_999A;

/// Bit pattern of 20.0: magnitudes from here on are implausible trims.
pub const TRIM_LIMIT: u32 = 0x41A0_0000;

/// A finite value of magnitude below 20. Without the sign bit, bit patterns are
/// ordered like the magnitudes, with infinities and NaNs above all others.
pub open spec fn plausible(bits: u32) -> bool {
    bits % 0x8000_0000 < TRIM_LIMIT
}

/// The trim of the record at `offset`, if it lies in the page and is plausible.
pub open spec fn trim_at(page: Seq<u8>, offset: int) -> Option<u32> {
    if offset + 6 <= page.len() && plausible(le32_at(page, offset + 2)) {
        Some(le32_at(page, offset + 2))
    } else {
        None
    }
}

/// The dB trim of the record at `offset` (+6 for the right channel), `None`
/// when out of range or implausible (same validity rule as the hosts).
pub fn trim_db(page: &[u8], offset: usize) -> (r: Option<u32>)
    requires
        offset + 6 <= usize::MAX,
    ensures
        r == trim_at(page@, offset as int),
{
    let p: usize = offset + 2;
    if p + 4 > page.len() {
        return None;
    }
    let v: u32 = get_le32(page, p);
    if v % 0x8000_0000 < TRIM_LIMIT {
        Some(v)
    } else {
        None
    }
}

/// The ADC trim of a range and channel; nominal where there is none.
pub open spec fn adc_trim(page: Seq<u8>, range: int, channel: int) -> u32 {
    if range < 8 {
        match trim_at(page, ADC_OFFSETS[range] + 6 * channel) {
            Some(v) => v,
            None => NOMINAL_ADC_DB,
        }
    } else {
        NOMINAL_ADC_DB
    }
}

/// ADC trim (dB) for an input-range index and channel (0 = left, 1 = right).
pub fn adc_trim_db(page: &[u8], range: usize, channel: usize) -> (v: u32)
    requires
        range < 8 ==> ADC_OFFSETS[range as int] + 6 * channel + 6 <= usize::MAX,
    ensures
        v == adc_trim(page@, range as int, channel as int),
{
    if range < 8 {
        match trim_db(page, ADC_OFFSETS[range] + 6 * channel) {
            Some(v) => v,
            None => NOMINAL_ADC_DB,
        }
    } else {
        NOMINAL_ADC_DB
    }
}

/// The DAC trim of a range and channel; nominal where there is none.
pub open spec fn dac_trim(page: Seq<u8>, range: int, channel: int) -> u32 {
    if range < 4 {
        match trim_at(page, DAC_OFFSETS[range] + 6 * channel) {
            Some(v) => v,
            None => NOMINAL_DAC_DB,
        }
    } else {
        NOMINAL_DAC_DB
    }
}

/// DAC trim (dB) for an output-range index and channel (0 = left, 1 = right).
pub fn dac_trim_db(page: &[u8], range: usize, channel: usize) -> (v: u32)
    requires
        range < 4 ==> DAC_OFFSETS[range as int] + 6 * channel + 6 <= usize::MAX,
    ensures
        v == dac_trim(page@, range as int, channel as int),
{
    if range < 4 {
        match trim_db(page, DAC_OFFSETS[range] + 6 * channel) {
            Some(v) => v,
            None => NOMINAL_DAC_DB,
        }
    } else {
        NOMINAL_DAC_DB
    }
}

/// One step of the CRC register: shift left, and add the polynomial 0x8005
/// when a one drops out.
pub open spec fn crc_bit(crc: u16) -> u16 {
    if crc & 0x8000 != 0 {
        (crc << 1) ^ 0x8005
    } else {
        crc << 1
    }
}

/// `n` steps of the CRC register.
pub open spec fn crc_bits(crc: u16, n: nat) -> u16
    decreases n,
{
    if n == 0 {
        crc
    } else {
        crc_bit(crc_bits(crc, (n - 1) as nat))
    }
}

/// The CRC register after one byte, taken from its high bit down.
pub open spec fn crc_byte(crc: u16, b: u8) -> u16 {
    crc_bits(crc ^ ((b as u16) << 8), 8)
}

/// The CRC register after `data`, starting from `crc`.
pub open spec fn crc_from(crc: u16, data: Seq<u8>) -> u16
    decreases data.len(),
{
    if data.len() == 0 {
        crc
    } else {
        crc_byte(crc_from(crc, data.drop_last()), data.last())
    }
}

/// CRC-16/BUYPASS of `data`.
pub open spec fn crc16_of(data: Seq<u8>) -> u16 {
    crc_from(0, data)
}

/// CRC-16/BUYPASS (aka CRC-16/UMTS): poly 0x8005, init 0x0000, unreflected,
/// no final xor. The page stores it big-endian in its last two bytes.
pub fn crc16_buypass(data: &[u8]) -> (crc: u16)
    ensures
        crc == crc16_of(data@),
{
    let mut crc: u16 = 0;
    let mut i: usize = 0;
    while i < data.len()
        invariant
            i <= data@.len(),
            crc == crc16_of(data@.take(i as int)),
        decreases data@.len() - i,
    {
        let ghost start = crc ^ ((data@[i as int] as u16) << 8);
        assert(data@.take(i + 1).drop_last() =~= data@.take(i as int));
        crc = crc ^ ((data[i] as u16) << 8);
        let mut n: u8 = 0;
        while n < 8
            invariant
                n <= 8,
                crc == crc_bits(start, n as nat),
            decreases 8 - n,
        {
            crc = if crc & 0x8000 != 0 {
                (crc << 1) ^ 0x8005
            } else {
                crc << 1
            };
            n += 1;
        }
        i += 1;
    }
    assert(data@.take(data@.len() as int) =~= data@);
    crc
}

/// Whether the last two bytes hold the CRC of the rest of the page.
pub open spec fn page_valid(page: Seq<u8>) -> bool {
    crc16_of(page.take(510)) == be16_at(page, 510)
}

/// True if the last two bytes hold the correct CRC of the rest of the page.
pub fn page_crc_ok(page: &[u8; 512]) -> (ok: bool)
    ensures
        ok == page_valid(page@),
{
    let p = page.as_slice();
    let body = vstd::slice::slice_subrange(p, 0, 510);
    assert(body@ =~= page@.take(510));
    crc16_buypass(body) == get_be16(p, 510)
}

/// A CRC step loses nothing: the bit that dropped out shows in the low bit.
proof fn lemma_crc_bits_injective(a: u16, b: u16, n: nat)
    requires
        crc_bits(a, n) == crc_bits(b, n),
    ensures
        a == b,
    decreases n,
{
    if n > 0 {
        let (x, y) = (crc_bits(a, (n - 1) as nat), crc_bits(b, (n - 1) as nat));
        assert(x == y) by (bit_vector)
            requires
                crc_bit(x) == crc_bit(y),
        ;
        lemma_crc_bits_injective(a, b, (n - 1) as nat);
    }
}

/// Different registers stay different whatever data follows.
proof fn lemma_crc_from_injective(a: u16, b: u16, data: Seq<u8>)
    requires
        crc_from(a, data) == crc_from(b, data),
    ensures
        a == b,
    decreases data.len(),
{
    if data.len() > 0 {
        let (x, y) = (crc_from(a, data.drop_last()), crc_from(b, data.drop_last()));
        let z = (data.last() as u16) << 8;
        lemma_crc_bits_injective(x ^ z, y ^ z, 8);
        assert(x == y) by (bit_vector)
            requires
                x ^ z == y ^ z,
        ;
        lemma_crc_from_injective(a, b, data.drop_last());
    }
}

/// The register after two pieces of data.
proof fn lemma_crc_from_concat(crc: u16, x: Seq<u8>, y: Seq<u8>)
    ensures
        crc_from(crc, x + y) == crc_from(crc_from(crc, x), y),
    decreases y.len(),
{
    if y.len() == 0 {
        assert(x + y =~= x);
    } else {
        assert((x + y).drop_last() =~= x + y.drop_last());
        lemma_crc_from_concat(crc, x, y.drop_last());
    }
}

/// Eight CRC steps, spelled out.
spec fn crc_octet(c: u16) -> u16 {
    crc_bit(crc_bit(crc_bit(crc_bit(crc_bit(crc_bit(crc_bit(crc_bit(c))))))))
}

/// Two different pairs of bytes leave different registers.
proof fn lemma_crc_pair_injective(crc: u16, a0: u8, a1: u8, b0: u8, b1: u8)
    requires
        crc_byte(crc_byte(crc, a0), a1) == crc_byte(crc_byte(crc, b0), b1),
    ensures
        a0 == b0,
        a1 == b1,
{
    let (x, y) = (crc ^ ((a0 as u16) << 8), crc ^ ((b0 as u16) << 8));
    let (f, g) = (crc_byte(crc, a0), crc_byte(crc, b0));
    let (p, q) = (f ^ ((a1 as u16) << 8), g ^ ((b1 as u16) << 8));
    lemma_crc_bits_injective(p, q, 8);
    reveal_with_fuel(crc_bits, 9);
    assert(x == y && f == g) by (bit_vector)
        requires
            x == crc ^ ((a0 as u16) << 8),
            y == crc ^ ((b0 as u16) << 8),
            f == crc_octet(x),
            g == crc_octet(y),
            f ^ ((a1 as u16) << 8) == g ^ ((b1 as u16) << 8),
    ;
    assert(a0 == b0 && a1 == b1) by (bit_vector)
        requires
            crc ^ ((a0 as u16) << 8) == crc ^ ((b0 as u16) << 8),
            f ^ ((a1 as u16) << 8) == f ^ ((b1 as u16) << 8),
    ;
}

/// The CRC detects every change that stays within two adjacent bytes.
pub proof fn lemma_crc_detects_burst(data: Seq<u8>, at: int, b0: u8, b1: u8)
    requires
        0 <= at,
        at + 2 <= data.len(),
        b0 != data[at] || b1 != data[at + 1],
    ensures
        crc16_of(data.update(at, b0).update(at + 1, b1)) != crc16_of(data),
{
    let changed = data.update(at, b0).update(at + 1, b1);
    let (head, tail) = (data.take(at), data.skip(at + 2));
    let (old_pair, new_pair) = (seq![data[at], data[at + 1]], seq![b0, b1]);
    assert(data =~= head + (old_pair + tail));
    assert(changed =~= head + (new_pair + tail));
    lemma_crc_from_concat(0, head, old_pair + tail);
    lemma_crc_from_concat(0, head, new_pair + tail);
    let c = crc_from(0, head);
    lemma_crc_from_concat(c, old_pair, tail);
    lemma_crc_from_concat(c, new_pair, tail);
    reveal_with_fuel(crc_from, 3);
    assert(old_pair.drop_last() =~= seq![data[at]]);
    assert(new_pair.drop_last() =~= seq![b0]);
    assert(old_pair.drop_last().drop_last() =~= Seq::<u8>::empty());
    assert(new_pair.drop_last().drop_last() =~= Seq::<u8>::empty());
    if crc16_of(changed) == crc16_of(data) {
        lemma_crc_from_injective(crc_from(c, old_pair), crc_from(c, new_pair), tail);
        lemma_crc_pair_injective(c, data[at], data[at + 1], b0, b1);
    }
}

/// Changing any one byte of a valid page, content or CRC, makes it invalid.
pub proof fn lemma_page_detects_tampering(page: Seq<u8>, at: int, b: u8)
    requires
        page.len() == PAGE_LEN,
        page_valid(page),
        0 <= at < PAGE_LEN,
        b != page[at],
    ensures
        !page_valid(page.update(at, b)),
{
    let changed = page.update(at, b);
    if at < 509 {
        lemma_crc_detects_burst(page.take(510), at, b, page[at + 1]);
        assert(changed.take(510) =~= page.take(510).update(at, b).update(at + 1, page[at + 1]));
    } else if at == 509 {
        lemma_crc_detects_burst(page.take(510), 508, page[508], b);
        assert(changed.take(510) =~= page.take(510).update(508, page[508]).update(509, b));
    } else {
        assert(changed.take(510) =~= page.take(510));
    }
}

/// The 16-bit two's-complement pattern of a level.
pub open spec fn level_word(level: i16) -> u16 {
    (level as int % 0x1_0000) as u16
}

/// One channel's record: level, then trim.
pub open spec fn record_bytes(level: i16, trim: u32) -> Seq<u8> {
    le16(level_word(level)) + le32(trim)
}

/// The records of several ranges, left channel before right.
pub open spec fn records_bytes(levels: Seq<i16>, trims: Seq<(u32, u32)>) -> Seq<u8>
    decreases trims.len(),
{
    if trims.len() == 0 {
        Seq::empty()
    } else {
        let n = trims.len() - 1;
        records_bytes(levels, trims.drop_last()) + record_bytes(levels[n], trims[n].0)
            + record_bytes(levels[n], trims[n].1)
    }
}

/// Everything in front of the records.
pub open spec fn header_bytes() -> Seq<u8> {
    le32(0) + le32(76) + le32(50) + le16(0x0023) + le16(0xDEAD) + le32(8) + le32(4)
}

/// A page without its CRC.
pub open spec fn body_bytes(adc: Seq<(u32, u32)>, dac: Seq<(u32, u32)>) -> Seq<u8> {
    header_bytes() + records_bytes(ADC_LEVELS_DBV@, adc) + records_bytes(DAC_LEVELS_DBV@, dac)
        + le16(0x0011) + le16(0xDEAD) + zeros(338)
}

/// A page with its CRC.
pub open spec fn page_bytes(adc: Seq<(u32, u32)>, dac: Seq<(u32, u32)>) -> Seq<u8> {
    body_bytes(adc, dac) + be16(crc16_of(body_bytes(adc, dac)))
}

/// Twelve bytes per range.
proof fn lemma_records_len(levels: Seq<i16>, trims: Seq<(u32, u32)>)
    ensures
        records_bytes(levels, trims).len() == 12 * trims.len(),
    decreases trims.len(),
{
    if trims.len() > 0 {
        lemma_records_len(levels, trims.drop_last());
    }
}

/// Appends the records of several ranges.
fn put_records(out: &mut Vec<u8>, levels: &[i16], trims: &[(u32, u32)])
    requires
        levels@.len() == trims@.len(),
    ensures
        final(out)@ == old(out)@ + records_bytes(levels@, trims@),
{
    let ghost before = out@;
    let mut i: usize = 0;
    assert(out@ =~= before + records_bytes(levels@, trims@.take(0)));
    while i < trims.len()
        invariant
            i <= trims@.len() == levels@.len(),
            out@ == before + records_bytes(levels@, trims@.take(i as int)),
        decreases trims@.len() - i,
    {
        let level: i16 = levels[i];
        let word: u16 = if level < 0 {
            (0x1_0000 + level as i32) as u16
        } else {
            level as u16
        };
        assert(word == level_word(level));
        assert(trims@.take(i + 1).drop_last() =~= trims@.take(i as int));
        put_le16(out, word);
        put_le32(out, trims[i].0);
        put_le16(out, word);
        put_le32(out, trims[i].1);
        assert(out@ =~= before + records_bytes(levels@, trims@.take(i + 1)));
        i += 1;
    }
    assert(trims@.take(trims@.len() as int) =~= trims@);
}

/// The array of 512 bytes.
pub fn page_of(bytes: &[u8]) -> (page: [u8; 512])
    requires
        bytes@.len() == PAGE_LEN,
    ensures
        page@ == bytes@,
{
    let mut page: [u8; 512] = [0; 512];
    let mut i: usize = 0;
    while i < 512
        invariant
            i <= 512,
            bytes@.len() == 512,
            forall|j: int| 0 <= j < i ==> page@[j] == bytes@[j],
        decreases 512 - i,
    {
        page[i] = bytes[i];
        i += 1;
    }
    assert(page@ =~= bytes@);
    page
}

/// The SplitMix64 state `k` draws after `seed`.
pub open spec fn unit_state(seed: u64, k: nat) -> u64
    decreases k,
{
    if k == 0 {
        seed
    } else {
        unit_state(seed, (k - 1) as nat).wrapping_add(GOLDEN_GAMMA)
    }
}

/// The `k`-th draw of a seed: over 2^52, less one, uniform in [-1, 1).
pub open spec fn unit_at(seed: u64, k: nat) -> u64 {
    splitmix64_of(unit_state(seed, k)) >> 11
}

/// The draws that randomize a page, in the order they are taken.
#[derive(Debug, Clone, Copy)]
pub struct TrimDraws {
    /// ADC trim of the first range.
    pub adc_base: u64,
    /// Step from one ADC range to the next.
    pub adc_slope: u64,
    /// Step on the attenuated ranges.
    pub atten_step: u64,
    /// Left and right deviation per ADC range.
    pub adc: [(u64, u64); 8],
    /// DAC trim around which the ranges lie.
    pub dac_base: u64,
    /// Right channel against the left.
    pub rl_offset: u64,
    /// Left and right deviation per DAC range.
    pub dac: [(u64, u64); 4],
}

/// Takes the draws that randomize a page from a seed.
pub fn trim_draws(seed: u64) -> (d: TrimDraws)
    ensures
        d.adc_base == unit_at(seed, 0),
        d.adc_slope == unit_at(seed, 1),
        d.atten_step == unit_at(seed, 2),
        forall|i: int|
            0 <= i < 8 ==> #[trigger] d.adc@[i] == (
                unit_at(seed, (3 + 2 * i) as nat),
                unit_at(seed, (4 + 2 * i) as nat),
            ),
        d.dac_base == unit_at(seed, 19),
        d.rl_offset == unit_at(seed, 20),
        forall|i: int|
            0 <= i < 4 ==> #[trigger] d.dac@[i] == (
                unit_at(seed, (21 + 2 * i) as nat),
                unit_at(seed, (22 + 2 * i) as nat),
            ),
{
    let mut state: u64 = seed;
    assert(unit_state(seed, 0) == seed);
    let adc_base: u64 = unit_draw(&mut state);
    assert(state == unit_state(seed, 1));
    let adc_slope: u64 = unit_draw(&mut state);
    assert(state == unit_state(seed, 2));
    let atten_step: u64 = unit_draw(&mut state);
    assert(state == unit_state(seed, 3));
    let mut adc: [(u64, u64); 8] = [(0, 0); 8];
    let mut i: usize = 0;
    while i < 8
        invariant
            i <= 8,
            state == unit_state(seed, (3 + 2 * i) as nat),
            forall|k: int|
                0 <= k < i ==> #[trigger] adc@[k] == (
                    unit_at(seed, (3 + 2 * k) as nat),
                    unit_at(seed, (4 + 2 * k) as nat),
                ),
        decreases 8 - i,
    {
        let l: u64 = unit_draw(&mut state);
        assert(state == unit_state(seed, (4 + 2 * i) as nat));
        let r: u64 = unit_draw(&mut state);
        assert(state == unit_state(seed, (5 + 2 * i) as nat));
        adc[i] = (l, r);
        i += 1;
    }
    let dac_base: u64 = unit_draw(&mut state);
    assert(state == unit_state(seed, 20));
    let rl_offset: u64 = unit_draw(&mut state);
    assert(state == unit_state(seed, 21));
    let mut dac: [(u64, u64); 4] = [(0, 0); 4];
    let mut j: usize = 0;
    while j < 4
        invariant
            j <= 4,
            state == unit_state(seed, (21 + 2 * j) as nat),
            forall|k: int|
                0 <= k < j ==> #[trigger] dac@[k] == (
                    unit_at(seed, (21 + 2 * k) as nat),
                    unit_at(seed, (22 + 2 * k) as nat),
                ),
        decreases 4 - j,
    {
        let l: u64 = unit_draw(&mut state);
        assert(state == unit_state(seed, (22 + 2 * j) as nat));
        let r: u64 = unit_draw(&mut state);
        assert(state == unit_state(seed, (23 + 2 * j) as nat));
        dac[j] = (l, r);
        j += 1;
    }
    TrimDraws { adc_base, adc_slope, atten_step, adc, dac_base, rl_offset, dac }
}

/// Builds a fully valid calibration page around the given trims, (left, right)
/// per range. Framing, counts, levels, markers and CRC follow the layout above.
pub fn generate_page(adc: &[(u32, u32); 8], dac: &[(u32, u32); 4]) -> (page: [u8; 512])
    ensures
        page@ == page_bytes(adc@, dac@),
        page_valid(page@),
{
    let mut p: Vec<u8> = Vec::new();
    put_le32(&mut p, 0);
    put_le32(&mut p, 76);
    put_le32(&mut p, 50);
    put_le16(&mut p, 0x0023);
    put_le16(&mut p, 0xDEAD);
    put_le32(&mut p, 8);
    put_le32(&mut p, 4);
    assert(p@ =~= header_bytes());
    put_records(&mut p, &ADC_LEVELS_DBV, adc);
    put_records(&mut p, &DAC_LEVELS_DBV, dac);
    put_le16(&mut p, 0x0011);
    put_le16(&mut p, 0xDEAD);
    put_zeros(&mut p, 338);
    proof {
        lemma_records_len(ADC_LEVELS_DBV@, adc@);
        lemma_records_len(DAC_LEVELS_DBV@, dac@);
    }
    assert(p@ == body_bytes(adc@, dac@));
    let ghost body = p@;
    let crc: u16 = crc16_buypass(&p);
    put_be16(&mut p, crc);
    assert(p@.take(510) =~= body);
    page_of(&p)
}

/// The records of range `i` stand at 12 times `i`.
proof fn lemma_records_at(levels: Seq<i16>, trims: Seq<(u32, u32)>, i: int)
    requires
        0 <= i < trims.len(),
    ensures
        records_bytes(levels, trims).len() == 12 * trims.len(),
        records_bytes(levels, trims).subrange(12 * i, 12 * i + 12) == record_bytes(
            levels[i],
            trims[i].0,
        ) + record_bytes(levels[i], trims[i].1),
    decreases trims.len(),
{
    lemma_records_len(levels, trims);
    lemma_records_len(levels, trims.drop_last());
    let all = records_bytes(levels, trims);
    if i < trims.len() - 1 {
        lemma_records_at(levels, trims.drop_last(), i);
        assert(all.subrange(12 * i, 12 * i + 12) =~= records_bytes(
            levels,
            trims.drop_last(),
        ).subrange(12 * i, 12 * i + 12));
    } else {
        assert(all.subrange(12 * i, 12 * i + 12) =~= record_bytes(levels[i], trims[i].0)
            + record_bytes(levels[i], trims[i].1));
    }
}

/// One trim of a pair.
pub open spec fn side(pair: (u32, u32), right: bool) -> u32 {
    if right {
        pair.1
    } else {
        pair.0
    }
}

/// Where a trim of range `i` stands among the records of its converter.
pub open spec fn trim_offset(i: int, right: bool) -> int {
    12 * i + 2 + if right {
        6int
    } else {
        0
    }
}

/// The words at the trim offsets of a page are the trims it was built from.
proof fn lemma_trim_words(adc: Seq<(u32, u32)>, dac: Seq<(u32, u32)>, i: int, right: bool)
    requires
        adc.len() == 8,
        dac.len() == 4,
    ensures
        page_bytes(adc, dac).len() == 512,
        0 <= i < 8 ==> le32_at(page_bytes(adc, dac), 24 + trim_offset(i, right)) == side(
            adc[i],
            right,
        ),
        0 <= i < 4 ==> le32_at(page_bytes(adc, dac), 120 + trim_offset(i, right)) == side(
            dac[i],
            right,
        ),
{
    let page = page_bytes(adc, dac);
    let (a, d) = (records_bytes(ADC_LEVELS_DBV@, adc), records_bytes(DAC_LEVELS_DBV@, dac));
    lemma_records_len(ADC_LEVELS_DBV@, adc);
    lemma_records_len(DAC_LEVELS_DBV@, dac);
    let at = trim_offset(i, right);
    if 0 <= i < 8 {
        let v = side(adc[i], right);
        lemma_records_at(ADC_LEVELS_DBV@, adc, i);
        let both = a.subrange(12 * i, 12 * i + 12);
        assert(page.subrange(24 + at, 24 + at + 4) =~= both.subrange(at - 12 * i, at - 12 * i + 4));
        assert(both.subrange(at - 12 * i, at - 12 * i + 4) =~= le32(v));
        lemma_le32_within(page, 24 + at, v);
    }
    if 0 <= i < 4 {
        let v = side(dac[i], right);
        lemma_records_at(DAC_LEVELS_DBV@, dac, i);
        let both = d.subrange(12 * i, 12 * i + 12);
        assert(page.subrange(120 + at, 120 + at + 4) =~= both.subrange(
            at - 12 * i,
            at - 12 * i + 4,
        ));
        assert(both.subrange(at - 12 * i, at - 12 * i + 4) =~= le32(v));
        lemma_le32_within(page, 120 + at, v);
    }
}

/// The trims that a page was built from are the trims read back from it.
pub proof fn lemma_generated_trims(
    adc: Seq<(u32, u32)>,
    dac: Seq<(u32, u32)>,
    i: int,
    right: bool,
)
    requires
        adc.len() == 8,
        dac.len() == 4,
    ensures
        ({
            let page = page_bytes(adc, dac);
            let ch = if right { 1int } else { 0int };
            &&& 0 <= i < 8 && plausible(side(adc[i], right)) ==> adc_trim(page, i, ch) == side(
                adc[i],
                right,
            )
            &&& 0 <= i < 4 && plausible(side(dac[i], right)) ==> dac_trim(page, i, ch) == side(
                dac[i],
                right,
            )
        }),
{
    lemma_trim_words(adc, dac, i, right);
    if 0 <= i < 8 {
        assert(ADC_OFFSETS[i] == 24 + 12 * i);
    }
    if 0 <= i < 4 {
        assert(DAC_OFFSETS[i] == 120 + 12 * i);
    }
}

/// Pages built from different trims differ.
pub proof fn lemma_pages_distinct(
    adc: Seq<(u32, u32)>,
    dac: Seq<(u32, u32)>,
    adc2: Seq<(u32, u32)>,
    dac2: Seq<(u32, u32)>,
)
    requires
        adc.len() == 8,
        dac.len() == 4,
        adc2.len() == 8,
        dac2.len() == 4,
    ensures
        (page_bytes(adc, dac) == page_bytes(adc2, dac2)) == (adc == adc2 && dac == dac2),
{
    if page_bytes(adc, dac) == page_bytes(adc2, dac2) {
        assert forall|i: int| 0 <= i < 8 implies adc[i] == adc2[i] by {
            lemma_trim_words(adc, dac, i, false);
            lemma_trim_words(adc, dac, i, true);
            lemma_trim_words(adc2, dac2, i, false);
            lemma_trim_words(adc2, dac2, i, true);
        }
        assert forall|i: int| 0 <= i < 4 implies dac[i] == dac2[i] by {
            lemma_trim_words(adc, dac, i, false);
            lemma_trim_words(adc, dac, i, true);
            lemma_trim_words(adc2, dac2, i, false);
            lemma_trim_words(adc2, dac2, i, true);
        }
        assert(adc =~= adc2);
        assert(dac =~= dac2);
    }
}

} // verus!

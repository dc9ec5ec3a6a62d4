//! Simulator configuration.
//!
//! Levels, gains and times that are not whole numbers are carried as the bit
//! patterns of their IEEE 754 single-precision values.

use crate::registry::FirmwareRegistry;
use crate::text::{chars_of, digit_char, digit_value, hex4, push_hex4, value_of_digit};
use vstd::prelude::*;
use vstd::string::StringExecFns;
use vstd::utf8::encode_utf8;

verus! {

/// Emulated analyzer model. The USB protocol is shared; the PID, the product
/// string and the supported sample rates differ.
#[derive(Debug, Clone, Copy, PartialEq, Eq, Structural)]
pub enum Model {
    Qa402,
    Qa403,
}

impl Model {
    /// The real units' product id.
    pub open spec fn pid(self) -> u16 {
        match self {
            Model::Qa402 => 0x4E37,
            Model::Qa403 => 0x4E39,
        }
    }

    /// The real units' product id.
    pub fn default_pid(&self) -> (pid: u16)
        ensures
            pid == self.pid(),
    {
        match self {
            Model::Qa402 => 0x4E37,
            Model::Qa403 => 0x4E39,
        }
    }

    /// The model name.
    pub open spec fn label(self) -> Seq<char> {
        match self {
            Model::Qa402 => "QA402"@,
            Model::Qa403 => "QA403"@,
        }
    }

    /// The model name.
    pub fn name(&self) -> (s: &'static str)
        ensures
            s@ == self.label(),
    {
        match self {
            Model::Qa402 => "QA402",
            Model::Qa403 => "QA403",
        }
    }

    /// The USB product string.
    pub open spec fn product(self) -> Seq<char> {
        self.label() + " Audio Analyzer"@
    }

    /// The USB product string.
    pub fn product_string(&self) -> (s: String)
        ensures
            s@ == self.product(),
    {
        let mut s = String::new();
        s.append(self.name());
        s.append(" Audio Analyzer");
        assert(s@ =~= self.product());
        s
    }

    /// Highest sample-rate index.
    pub open spec fn top_rate(self) -> u32 {
        match self {
            Model::Qa402 => 2,
            Model::Qa403 => 3,
        }
    }

    /// Highest valid sample-rate index for register 9 (0=48k, 1=96k, 2=192k,
    /// 3=384k QA403-only).
    pub fn max_rate_index(&self) -> (n: u32)
        ensures
            n == self.top_rate(),
    {
        match self {
            Model::Qa402 => 2,
            Model::Qa403 => 3,
        }
    }
}

/// Which channel(s) the independent input generator drives.
#[derive(Debug, Clone, Copy, PartialEq, Eq, Structural)]
pub enum GenChannel {
    Left,
    Right,
    Both,
}

/// An independent sine "present at the analyzer input", in absolute volts
/// (level in dBV RMS), regardless of what the DAC plays. Useful to test
/// acquire-only paths of the host app.
#[derive(Debug, Clone, Copy, PartialEq, Eq, Structural)]
pub struct GenSpec {
    pub freq_hz: u32,
    pub level_dbv: u32,
    pub channel: GenChannel,
}

/// The serial drawn from a seed: its low 32 bits as `XXXX_XXXX`.
pub open spec fn serial_text(seed: u64) -> Seq<char> {
    hex4((seed / 0x1_0000 % 0x1_0000) as u16) + seq!['_'] + hex4((seed % 0x1_0000) as u16)
}

/// A random serial in the real units' format (`XXXX_XXXX`, hex digits), from a
/// fresh seed. Used as the default so the virtual device never impersonates a
/// specific physical unit; pass an explicit serial to pin it.
pub fn random_serial(seed: u64) -> (s: String)
    ensures
        s@ == serial_text(seed),
{
    let mut s = String::new();
    push_hex4(&mut s, (seed / 0x1_0000 % 0x1_0000) as u16);
    s.push('_');
    push_hex4(&mut s, (seed % 0x1_0000) as u16);
    assert(s@ =~= serial_text(seed));
    s
}

/// Bit pattern of -140.0, the default noise floor in dBFS.
pub const DEFAULT_NOISE_DBFS: u32 = 0xC30C_0000;

/// Default USB vendor id.
pub const DEFAULT_VID: u16 = 0x16C0;

/// Default firmware version.
pub const DEFAULT_FW_VERSION: u32 = 60;

/// Default loopback latency in samples.
pub const DEFAULT_LATENCY: usize = 1200;

/// Everything configurable about the virtual device.
#[derive(Debug, Clone)]
pub struct SimOptions {
    pub model: Model,
    /// USB vendor id of the analyzer persona (default 0x16C0).
    pub vid: u16,
    /// USB product id of the analyzer persona (default per model).
    pub pid: u16,
    /// USB serial string, e.g. "AB12_CD34". Register 0x1D returns the first 8
    /// hex digits packed as a u32 (underscores ignored), matching hardware.
    /// Defaults to a random one (see [`random_serial`]).
    pub serial: String,
    /// Firmware build number served by register 0x10 at boot (real units: 60).
    pub fw_version: u32,
    /// Version to report after a fake flash when the image is not found in the
    /// firmware registry. `None` keeps the current version.
    pub post_flash_version: Option<u32>,
    /// Optional sha256-to-version map (the host project's
    /// firmware-registry.json). Note: the vendor app zeroes 2 bytes at size-4
    /// before sending, so wire images usually do NOT match the registry's
    /// embedded-image hashes; `post_flash_version` is the practical knob.
    pub registry: Option<FirmwareRegistry>,
    /// Pace ADC data at the configured sample rate like real hardware. Off =
    /// serve blocks as fast as the host asks (fast tests).
    pub realtime: bool,
    /// DAC-to-ADC loopback round-trip latency, in samples.
    pub latency_samples: usize,
    /// ADC noise floor in dBFS RMS (Gaussian). -200 is about disabled.
    pub noise_dbfs: u32,
    /// Fixed noise seed: every stream start replays the identical noise
    /// sequence. `None` takes fresh entropy per stream.
    pub noise_seed: Option<u64>,
    /// Loop the DAC output back into the ADC (the "cable in loopback" setup).
    pub loopback: bool,
    /// Extra gain applied in the loopback path, in dB (0 = ideal cable).
    pub loopback_gain_db: u32,
    /// 2nd-harmonic distortion level in dBc for a full-scale sine, `None` = clean.
    pub h2_dbc: Option<u32>,
    /// 3rd-harmonic distortion level in dBc for a full-scale sine, `None` = clean.
    pub h3_dbc: Option<u32>,
    /// Independent generator at the ADC input.
    pub generator: Option<GenSpec>,
    /// USB/IP bus id this device is exported under.
    pub busid: String,
    /// Directory where every image received by the fake bootloader is saved
    /// (created if needed), as `qa40x-flash-<n>-<sha256:8>.sb`.
    pub save_firmware: Option<String>,
    /// Custom 512-byte calibration page. `None` serves the embedded real QA402
    /// page. The audio engine reads its trims from the served page either way.
    pub cal_page: Option<[u8; 512]>,
    /// Boot straight into the NXP KBOOT bootloader persona (`1fc9:0022`),
    /// waiting for a firmware image, as a real unit does when a previous flash
    /// failed and left it stuck in DFU. On a successful flash the device boots
    /// into the analyzer as usual.
    pub boot_bootloader: bool,
    /// Simulated flash-write time: the bootloader paces the ReceiveSbFile
    /// data phase over roughly this many seconds (0.0 = instant).
    pub flash_secs: u32,
}

/// The hex digits of a text, in order.
pub open spec fn hex_digits(s: Seq<char>) -> Seq<char>
    decreases s.len(),
{
    if s.len() == 0 {
        Seq::empty()
    } else if digit_value(s.last(), 16) is Some {
        hex_digits(s.drop_last()).push(s.last())
    } else {
        hex_digits(s.drop_last())
    }
}

/// The value of a run of hex digits.
pub open spec fn hex_value(s: Seq<char>) -> int
    decreases s.len(),
{
    if s.len() == 0 {
        0
    } else {
        hex_value(s.drop_last()) * 16 + digit_value(s.last(), 16)->0
    }
}

/// 32-bit FNV-1a hash.
pub open spec fn fnv1a(bytes: Seq<u8>) -> u32
    decreases bytes.len(),
{
    if bytes.len() == 0 {
        0x811C_9DC5
    } else {
        (fnv1a(bytes.drop_last()) ^ bytes.last() as u32).wrapping_mul(0x0100_0193)
    }
}

/// The register 0x1D value of a serial: its first eight hex digits, or a
/// stable hash of its UTF-8 bytes when it has fewer.
pub open spec fn serial_number(serial: Seq<char>) -> u32 {
    let digits = hex_digits(serial);
    if digits.len() >= 8 {
        hex_value(digits.take(8)) as u32
    } else {
        fnv1a(encode_utf8(serial))
    }
}

/// The register 0x1D value of a serial string.
pub fn serial_value(serial: &str) -> (v: u32)
    ensures
        v == serial_number(serial@),
{
    let chars = chars_of(serial);
    let mut v: u64 = 0;
    let mut n: usize = 0;
    let mut i: usize = 0;
    let ghost mut digits = Seq::<char>::empty();
    let ghost mut kept = Seq::<char>::empty();
    let mut bound: u64 = 1;
    while i < chars.len()
        invariant
            i <= chars@.len(),
            digits == hex_digits(chars@.take(i as int)),
            kept == digits.take(n as int),
            n <= 8,
            n == (if digits.len() < 8 {
                digits.len()
            } else {
                8
            }),
            v == hex_value(kept),
            v < bound <= 0x1_0000_0000,
            n < 8 ==> bound <= 0x1000_0000,
            n < 7 ==> bound <= 0x100_0000,
            n < 6 ==> bound <= 0x10_0000,
            n < 5 ==> bound <= 0x1_0000,
            n < 4 ==> bound <= 0x1000,
            n < 3 ==> bound <= 0x100,
            n < 2 ==> bound <= 0x10,
            n < 1 ==> bound <= 1,
        decreases chars@.len() - i,
    {
        let ghost before = digits;
        assert(chars@.take(i + 1).drop_last() =~= chars@.take(i as int));
        match value_of_digit(chars[i], 16) {
            Some(d) => {
                proof {
                    digits = digits.push(chars@[i as int]);
                }
                if n < 8 {
                    assert(kept =~= before);
                    v = v * 16 + d as u64;
                    bound = bound * 16;
                    n += 1;
                    proof {
                        kept = kept.push(chars@[i as int]);
                        assert(kept.drop_last() =~= before);
                    }
                }
                assert(kept =~= digits.take(n as int));
            },
            None => {},
        }
        i += 1;
    }
    assert(chars@.take(chars@.len() as int) =~= serial@);
    if n == 8 {
        return v as u32;
    }
    let bytes = serial.as_bytes();
    let mut h: u32 = 0x811C_9DC5;
    let mut j: usize = 0;
    while j < bytes.len()
        invariant
            j <= bytes@.len(),
            h == fnv1a(bytes@.take(j as int)),
        decreases bytes@.len() - j,
    {
        assert(bytes@.take(j + 1).drop_last() =~= bytes@.take(j as int));
        h = (h ^ bytes[j] as u32).wrapping_mul(0x0100_0193);
        j += 1;
    }
    assert(bytes@.take(bytes@.len() as int) =~= bytes@);
    h
}

impl SimOptions {
    /// The defaults, with a serial drawn from `seed`: a QA402 on bus id "1-1".
    pub fn default(seed: u64) -> (o: Self)
        ensures
            o.model == Model::Qa402,
            o.vid == DEFAULT_VID,
            o.pid == Model::Qa402.pid(),
            o.serial@ == serial_text(seed),
            o.fw_version == DEFAULT_FW_VERSION,
            o.post_flash_version is None,
            o.registry is None,
            o.realtime,
            o.latency_samples == DEFAULT_LATENCY,
            o.noise_dbfs == DEFAULT_NOISE_DBFS,
            o.noise_seed is None,
            o.loopback,
            o.loopback_gain_db == 0,
            o.h2_dbc is None,
            o.h3_dbc is None,
            o.generator is None,
            o.busid@ == "1-1"@,
            o.save_firmware is None,
            o.cal_page is None,
            !o.boot_bootloader,
            o.flash_secs == 0,
    {
        SimOptions {
            model: Model::Qa402,
            vid: DEFAULT_VID,
            pid: Model::Qa402.default_pid(),
            serial: random_serial(seed),
            fw_version: DEFAULT_FW_VERSION,
            post_flash_version: None,
            registry: None,
            realtime: true,
            latency_samples: DEFAULT_LATENCY,
            noise_dbfs: DEFAULT_NOISE_DBFS,
            noise_seed: None,
            loopback: true,
            loopback_gain_db: 0,
            h2_dbc: None,
            h3_dbc: None,
            generator: None,
            busid: "1-1".to_string(),
            save_firmware: None,
            cal_page: None,
            boot_bootloader: false,
            flash_secs: 0,
        }
    }

    /// Register 0x1D value: the serial string's hex digits packed as a u32
    /// (e.g. "AB12_CD34" gives 0xAB12CD34). A serial without 8 hex digits falls
    /// back to a stable hash of the string, so 0x1D still identifies it.
    pub fn serial_u32(&self) -> (v: u32)
        ensures
            v == serial_number(self.serial@),
    {
        serial_value(self.serial.as_str())
    }
}

/// A hex digit character has the value it was made from.
pub proof fn lemma_digit_char_value(d: int)
    requires
        0 <= d < 16,
    ensures
        digit_value(digit_char(d, 'A'), 16) == Some(d),
        digit_value(digit_char(d, 'a'), 16) == Some(d),
{
}

/// One hex digit more.
proof fn lemma_hex_push(s: Seq<char>, d: int)
    requires
        0 <= d < 16,
    ensures
        hex_digits(s.push(digit_char(d, 'A'))) == hex_digits(s).push(digit_char(d, 'A')),
        hex_value(s.push(digit_char(d, 'A'))) == hex_value(s) * 16 + d,
{
    lemma_digit_char_value(d);
    assert(s.push(digit_char(d, 'A')).drop_last() =~= s);
}

/// A 16-bit value is made of its four hex digits.
proof fn lemma_nibbles(n: int)
    requires
        0 <= n < 0x1_0000,
    ensures
        0 <= n / 0x1000 < 16,
        (((n / 0x1000) * 16 + n / 0x100 % 16) * 16 + n / 0x10 % 16) * 16 + n % 16 == n,
{
    assert(n / 0x100 == (n / 0x1000) * 16 + n / 0x100 % 16);
    assert(n / 0x10 == (n / 0x100) * 16 + n / 0x10 % 16);
}

/// Pushing four characters appends them.
proof fn lemma_push4(s: Seq<char>, t: Seq<char>)
    requires
        t.len() == 4,
    ensures
        s + t == s.push(t[0]).push(t[1]).push(t[2]).push(t[3]),
{
    assert(s + t =~= s.push(t[0]).push(t[1]).push(t[2]).push(t[3]));
}

/// Four hex digits more.
proof fn lemma_hex4_push(s: Seq<char>, v: u16)
    ensures
        hex_digits(s + hex4(v)) == hex_digits(s) + hex4(v),
        hex_value(s + hex4(v)) == hex_value(s) * 0x1_0000 + v,
{
    let n = v as int;
    let (a, b, c, d) = (n / 0x1000, n / 0x100 % 16, n / 0x10 % 16, n % 16);
    let s1 = s.push(digit_char(a, 'A'));
    let s2 = s1.push(digit_char(b, 'A'));
    let s3 = s2.push(digit_char(c, 'A'));
    lemma_nibbles(n);
    lemma_hex_push(s, a);
    lemma_hex_push(s1, b);
    lemma_hex_push(s2, c);
    lemma_hex_push(s3, d);
    lemma_push4(s, hex4(v));
    lemma_push4(hex_digits(s), hex4(v));
    let x = hex_value(s);
    assert((((x * 16 + a) * 16 + b) * 16 + c) * 16 + d == x * 0x1_0000 + (((a * 16 + b) * 16 + c)
        * 16 + d));
}

/// An underscore is no hex digit.
proof fn lemma_hex_underscore(s: Seq<char>)
    ensures
        hex_digits(s.push('_')) == hex_digits(s),
{
    assert(s.push('_').drop_last() =~= s);
}

/// The hex digits of a serial in two halves.
proof fn lemma_serial_digits(h: u16, l: u16)
    ensures
        hex_digits(hex4(h) + seq!['_'] + hex4(l)) == hex4(h) + hex4(l),
        hex_value(hex4(h) + hex4(l)) == h * 0x1_0000 + l,
{
    let none = Seq::<char>::empty();
    lemma_hex4_push(none, h);
    assert(none + hex4(h) =~= hex4(h));
    lemma_hex_underscore(hex4(h));
    assert(hex4(h) + seq!['_'] =~= hex4(h).push('_'));
    lemma_hex4_push(hex4(h).push('_'), l);
    lemma_hex4_push(hex4(h), l);
}

/// The low 32 bits of a number, in two halves.
proof fn lemma_halves(n: int)
    requires
        0 <= n,
    ensures
        0 <= n / 0x1_0000 % 0x1_0000 < 0x1_0000,
        (n / 0x1_0000 % 0x1_0000) * 0x1_0000 + n % 0x1_0000 == n % 0x1_0000_0000,
{
}

/// Four hex digits are four characters.
proof fn lemma_hex4_len(v: u16)
    ensures
        hex4(v).len() == 4,
{
}

/// Register 0x1D of a device with a random serial is the value the serial was
/// drawn from.
pub proof fn lemma_random_serial_number(seed: u64)
    ensures
        serial_number(serial_text(seed)) == seed % 0x1_0000_0000,
{
    let (h, l) = ((seed / 0x1_0000 % 0x1_0000) as u16, (seed % 0x1_0000) as u16);
    lemma_halves(seed as int);
    lemma_serial_digits(h, l);
    lemma_hex4_len(h);
    lemma_hex4_len(l);
    let digits = hex4(h) + hex4(l);
    assert(digits.take(8) =~= digits);
}

} // verus!

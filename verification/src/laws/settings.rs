//! Settings: models, serials, specifications of devices and their defaults.

use crate::calpage::page_crc_ok;
use crate::config::{
    args_to_spec, cal_source, check_spec, file_page, first_duplicate, gen_numbers, id_number,
    load_registry, opt_text, parse_gen, parse_model, parse_u16, resolve_serial, spec_to_options,
    CalSource, DeviceSpec, EmptyRegistry, EnvConfig, GenError, NoDevices, Settings, SpecError,
    SpecIds,
};
use crate::laws::text::{all_digits, in_case, made_of, numeral, reads_number, worth};
use crate::options::{
    fnv1a, hex_digits, hex_value, random_serial, serial_value, GenChannel, GenSpec, Model, SimOptions,
};
use crate::registry::{
    lemma_registry_lookup, lower_text, names_image, registry_of, release_version, sha256_hex,
    unicode_lower, version_text, FirmwareRegistry, Release,
};
use crate::text::{lower, lower_chars, split_text, texts, trimmed, IntError};
use vstd::prelude::*;
use vstd::utf8::{encode_utf8, is_ascii_chars};

verus! {

/// What tells the models apart.
pub proof fn law_models(m: Model, pid: u16, name: &'static str, product: String, top: u32)
    requires
        call_ensures(Model::default_pid, (&m,), pid),
        call_ensures(Model::name, (&m,), name),
        call_ensures(Model::product_string, (&m,), product),
        call_ensures(Model::max_rate_index, (&m,), top),
    ensures
        m is Qa402 ==> pid == 0x4E37 && name@ == "QA402"@ && product@ == "QA402 Audio Analyzer"@
            && top == 2,
        m is Qa403 ==> pid == 0x4E39 && name@ == "QA403"@ && product@ == "QA403 Audio Analyzer"@
            && top == 3,
{
    reveal_strlit("QA402");
    reveal_strlit("QA403");
    reveal_strlit(" Audio Analyzer");
    reveal_strlit("QA402 Audio Analyzer");
    reveal_strlit("QA403 Audio Analyzer");
    assert("QA402"@ + " Audio Analyzer"@ =~= "QA402 Audio Analyzer"@);
    assert("QA403"@ + " Audio Analyzer"@ =~= "QA403 Audio Analyzer"@);
}

/// The hex digits of a text.
pub open spec fn hex_only(s: Seq<char>) -> Seq<char> {
    s.filter(|c: char| 0 <= worth(c) < 16)
}

/// The same digits.
proof fn lemma_hex_only(s: Seq<char>)
    ensures
        hex_digits(s) == hex_only(s),
    decreases s.len(),
{
    reveal(Seq::filter);
    if s.len() > 0 {
        lemma_hex_only(s.drop_last());
    } else {
        assert(hex_digits(s) =~= hex_only(s));
    }
}

/// The same value.
proof fn lemma_hex_value(s: Seq<char>)
    requires
        all_digits(s, 16),
    ensures
        hex_value(s) == made_of(s, 16),
    decreases s.len(),
{
    if s.len() > 0 {
        let front = s.drop_last();
        assert(all_digits(front, 16)) by {
            assert forall|i: int| 0 <= i < front.len() implies 0 <= worth(#[trigger] front[i])
                < 16 by {
                assert(0 <= worth(s[i]) < 16);
            }
        }
        lemma_hex_value(front);
        assert(0 <= worth(s[s.len() - 1]) < 16);
    }
}

/// All hex digits are hex digits.
proof fn lemma_hex_only_digits(s: Seq<char>)
    ensures
        all_digits(hex_only(s), 16),
    decreases s.len(),
{
    reveal(Seq::filter);
    if s.len() > 0 {
        let front = hex_only(s.drop_last());
        lemma_hex_only_digits(s.drop_last());
        let all = hex_only(s);
        assert forall|i: int| 0 <= i < all.len() implies 0 <= worth(#[trigger] all[i]) < 16 by {
            if i < front.len() {
                assert(all[i] == front[i]);
            }
        }
    }
}

/// Eight hex digits are a 32-bit number.
proof fn lemma_hex_bound(s: Seq<char>, i: int, bound: int)
    requires
        all_digits(s, 16),
        0 <= i <= s.len(),
        bound == crate::laws::settings::power16(i),
    ensures
        0 <= made_of(s.take(i), 16) < bound,
    decreases i,
{
    if i > 0 {
        lemma_hex_bound(s, i - 1, power16(i - 1));
        assert(s.take(i).drop_last() =~= s.take(i - 1));
        assert(s.take(i).last() == s[i - 1]);
        assert(0 <= worth(s[i - 1]) < 16);
    }
}

/// Powers of 16.
pub open spec fn power16(i: int) -> int
    decreases i,
{
    if i <= 0 {
        1
    } else {
        16 * power16(i - 1)
    }
}

/// The FNV-1a hash of some bytes.
pub open spec fn hashed(s: Seq<u8>) -> int
    decreases s.len(),
{
    if s.len() == 0 {
        2166136261
    } else {
        ((hashed(s.drop_last()) as u32) ^ (s.last() as u32)) * 16777619 % 4294967296
    }
}

/// The same hash.
proof fn lemma_hashed(s: Seq<u8>)
    ensures
        fnv1a(s) == hashed(s),
    decreases s.len(),
{
    if s.len() > 0 {
        lemma_hashed(s.drop_last());
    }
}

/// The number of a serial: its first eight hex digits, whatever stands between
/// them; the hash of the text where there are fewer.
pub proof fn law_serial_number(o: &SimOptions, v: u32, serial: &str, w: u32)
    requires
        call_ensures(SimOptions::serial_u32, (o,), v),
        serial@ == o.serial@,
        call_ensures(serial_value, (serial,), w),
    ensures
        w == v,
        hex_only(o.serial@).len() >= 8 ==> v == made_of(hex_only(o.serial@).take(8), 16),
        hex_only(o.serial@).len() < 8 ==> v == hashed(encode_utf8(o.serial@)),
{
    let s = o.serial@;
    lemma_hex_only(s);
    lemma_hex_only_digits(s);
    lemma_hashed(encode_utf8(s));
    let d = hex_only(s);
    if d.len() >= 8 {
        let t = d.take(8);
        assert(all_digits(t, 16)) by {
            assert forall|i: int| 0 <= i < t.len() implies 0 <= worth(#[trigger] t[i]) < 16 by {
                assert(0 <= worth(d[i]) < 16);
            }
        }
        lemma_hex_value(t);
        reveal_with_fuel(power16, 9);
        lemma_hex_bound(d, 8, power16(8));
    }
}

/// A random serial is eight upper-case hex digits in two halves, and its number
/// is the low half of what it was drawn from.
pub proof fn law_random_serial(seed: u64, s: String, i: int, o: &SimOptions, v: u32)
    requires
        call_ensures(random_serial, (seed,), s),
        o.serial@ == s@,
        call_ensures(SimOptions::serial_u32, (o,), v),
    ensures
        s@.len() == 9,
        s@[4] == '_',
        0 <= i < 9 && i != 4 ==> in_case(s@[i], true),
        v == seed % 0x1_0000_0000,
{
    crate::options::lemma_random_serial_number(seed);
    let (h, l) = ((seed / 0x1_0000 % 0x1_0000) as int, (seed % 0x1_0000) as int);
    lemma_upper(h);
    lemma_upper(l);
}

/// Four hex digits in upper case.
proof fn lemma_upper(n: int)
    requires
        0 <= n < 0x1_0000,
    ensures
        ({
            let s = crate::text::hex4(n as u16);
            &&& s.len() == 4
            &&& in_case(s[0], true) && in_case(s[1], true) && in_case(s[2], true) && in_case(
                s[3],
                true,
            )
        }),
{
}

/// The defaults of a device: a QA402 of firmware 60 on bus id 1-1, with a
/// random serial, in real time, looped back after 1200 samples at 0 dB, with
/// noise at -140 dBFS and nothing else.
pub proof fn law_defaults(seed: u64, o: SimOptions, s: String)
    requires
        call_ensures(SimOptions::default, (seed,), o),
        call_ensures(random_serial, (seed,), s),
    ensures
        o.model is Qa402,
        o.vid == 0x16C0,
        o.pid == 0x4E37,
        o.serial@ == s@,
        o.fw_version == 60,
        o.post_flash_version is None,
        o.registry is None,
        o.realtime,
        o.latency_samples == 1200,
        o.noise_dbfs == 0xC30C_0000u32,
        o.noise_seed is None,
        o.loopback,
        o.loopback_gain_db == 0,
        o.h2_dbc is None,
        o.h3_dbc is None,
        o.generator is None,
        o.busid@ == "1-1"@,
        o.save_firmware is None,
        o.cal_page is None,
        !o.boot_bootloader,
        o.flash_secs == 0,
{
}

/// A model is named in any case.
pub proof fn law_parse_model(s: &str, r: Result<Model, String>, l: Vec<char>)
    requires
        call_ensures(parse_model, (s,), r),
        call_ensures(lower_chars, (s,), l),
    ensures
        l@ == "qa402"@ ==> (r matches Ok(m) && m is Qa402),
        l@ == "qa403"@ ==> (r matches Ok(m) && m is Qa403),
        l@ != "qa402"@ && l@ != "qa403"@ ==> (r matches Err(e) && e@ == "expected qa402 or qa403"@),
{
    reveal_strlit("qa402");
    reveal_strlit("qa403");
    assert("qa402"@[4] != "qa403"@[4]);
}

/// Whether this is what reading a 16-bit id comes to: hex behind 0x, else
/// decimal.
pub open spec fn reads_id(t: Seq<char>, r: Result<u32, IntError>) -> bool {
    if t.len() >= 2 && t[0] == '0' && (t[1] == 'x' || t[1] == 'X') {
        reads_number(t.skip(2), 16, 65535, r)
    } else {
        reads_number(t, 10, 65535, r)
    }
}

/// Ids are read without the white space around them, and an error says in words
/// what is wrong.
pub proof fn law_parse_id(
    s: &str,
    t: Vec<char>,
    r: Result<u16, IntError>,
    p: Result<u16, String>,
    e: IntError,
    m: &'static str,
)
    requires
        call_ensures(trimmed, (s,), t),
        call_ensures(id_number, (s,), r),
        call_ensures(parse_u16, (s,), p),
        call_ensures(IntError::message, (&e,), m),
    ensures
        match r {
            Ok(v) => reads_id(t@, Ok(v as u32)),
            Err(e) => reads_id(t@, Err(e)),
        },
        r matches Ok(v) ==> p == Ok::<u16, String>(v),
        r == Err::<u16, IntError>(e) ==> (p matches Err(w) && w@ == m@),
{
    crate::laws::text::lemma_unsigned(t@, 10, 65535);
    if t@.len() >= 2 {
        crate::laws::text::lemma_unsigned(t@.skip(2), 16, 65535);
    }
}

/// The fields of a generator: two or three between colons. The frequency is
/// judged first, then the level, then the channel, which is both where none is
/// given.
pub proof fn law_parse_gen(
    s: &str,
    parts: Vec<String>,
    n: Option<(String, String)>,
    freq: Option<u32>,
    level: Option<u32>,
    r: Result<GenSpec, GenError>,
    name: &str,
    l: Vec<char>,
)
    requires
        call_ensures(split_text, (s, ':'), parts),
        call_ensures(gen_numbers, (s,), n),
        call_ensures(parse_gen, (s, freq, level), r),
        parts@.len() == 3 ==> name@ == parts@[2]@,
        call_ensures(lower_chars, (name,), l),
    ensures
        (n is Some) == (parts@.len() == 2 || parts@.len() == 3),
        n matches Some(f) ==> f.0@ == parts@[0]@ && f.1@ == parts@[1]@,
        n is None ==> (r matches Err(GenError::Shape)),
        n is Some && freq is None ==> (r matches Err(GenError::Frequency)),
        n is Some && freq is Some && level is None ==> (r matches Err(GenError::Level)),
        n is Some && freq is Some && level is Some ==> {
            let channel = if parts@.len() == 2 || l@ == "both"@ {
                Some(GenChannel::Both)
            } else if l@ == "left"@ {
                Some(GenChannel::Left)
            } else if l@ == "right"@ {
                Some(GenChannel::Right)
            } else {
                None
            };
            match channel {
                Some(c) => r matches Ok(g) && g.freq_hz == freq->0 && g.level_dbv == level->0
                    && g.channel == c,
                None => r matches Err(GenError::Channel(w)) && w@ == l@,
            }
        },
{
    let all = texts(parts@);
    assert(all.len() == parts@.len());
    if parts@.len() >= 2 {
        assert(all[0] == parts@[0]@ && all[1] == parts@[1]@);
    }
    if parts@.len() == 3 {
        assert(all[2] == parts@[2]@);
    }
    reveal_strlit("left");
    reveal_strlit("right");
    reveal_strlit("both");
    assert("left"@[0] != "both"@[0] && "right"@[0] != "both"@[0] && "left"@[0] != "right"@[0]);
}

/// A serial that is not given, or asked to be random or dynamic in any case, is
/// drawn; any other is kept as it is.
pub proof fn law_resolve_serial(
    spec: &Option<String>,
    seed: u64,
    s: String,
    drawn: String,
    text: &str,
    l: Vec<char>,
)
    requires
        call_ensures(resolve_serial, (spec, seed), s),
        call_ensures(random_serial, (seed,), drawn),
        *spec matches Some(t) ==> text@ == t@,
        call_ensures(lower_chars, (text,), l),
    ensures
        *spec is None ==> s@ == drawn@,
        *spec is Some && (l@ == "random"@ || l@ == "dynamic"@) ==> s@ == drawn@,
        *spec is Some && l@ != "random"@ && l@ != "dynamic"@ ==> s@ == spec->0@,
{
    lemma_lower_words();
}

/// Words in lower case.
proof fn lemma_lower_words()
    ensures
        lower("random"@) == "random"@,
        lower("dynamic"@) == "dynamic"@,
        lower("real"@) == "real"@,
        "random"@ != "real"@,
{
    reveal_strlit("random");
    reveal_strlit("dynamic");
    reveal_strlit("real");
    assert(lower("random"@) =~= "random"@);
    assert(lower("dynamic"@) =~= "dynamic"@);
    assert(lower("real"@) =~= "real"@);
    assert("random"@.len() != "real"@.len());
}

/// Where a calibration page comes from: the factory where nothing or "real" is
/// given, a draw for "random", otherwise the file of that name, which has to
/// have 512 bytes.
pub proof fn law_cal_page(
    spec: &Option<String>,
    c: CalSource,
    text: &str,
    l: Vec<char>,
    bytes: &[u8],
    r: Option<([u8; 512], bool)>,
    page: &[u8; 512],
    ok: bool,
)
    requires
        call_ensures(cal_source, (spec,), c),
        *spec matches Some(t) ==> text@ == t@,
        call_ensures(lower_chars, (text,), l),
        call_ensures(file_page, (bytes,), r),
        page@ == bytes@,
        call_ensures(page_crc_ok, (page,), ok),
    ensures
        *spec is None ==> c is Factory,
        *spec is Some && l@ == "real"@ ==> c is Factory,
        *spec is Some && l@ == "random"@ ==> c is Random,
        *spec is Some && l@ != "real"@ && l@ != "random"@ ==> (c matches CalSource::File(path)
            && path@ == spec->0@),
        (r is Some) == (bytes@.len() == 512),
        r matches Some(p) ==> p.0@ == bytes@ && p.1 == ok,
{
    lemma_lower_words();
}

/// What a specification says, part by part: the model (a QA402 by default), the
/// vendor id (0x16C0), the product id (the model's) and the generator. The
/// first part that is wrong is told.
pub proof fn law_check_spec(
    spec: &DeviceSpec,
    freq: Option<u32>,
    level: Option<u32>,
    r: Result<SpecIds, SpecError>,
    m: &str,
    model: Result<Model, String>,
    low: Vec<char>,
    v: &str,
    vid: Result<u16, IntError>,
    p: &str,
    pid: Result<u16, IntError>,
    g: &str,
    gen: Result<GenSpec, GenError>,
)
    requires
        call_ensures(check_spec, (spec, freq, level), r),
        spec.model matches Some(t) ==> m@ == t@,
        call_ensures(parse_model, (m,), model),
        call_ensures(lower_chars, (m,), low),
        spec.vid matches Some(t) ==> v@ == t@,
        call_ensures(id_number, (v,), vid),
        spec.pid matches Some(t) ==> p@ == t@,
        call_ensures(id_number, (p,), pid),
        spec.gen matches Some(t) ==> g@ == t@,
        call_ensures(parse_gen, (g, freq, level), gen),
    ensures
        ({
            let known = if spec.model is Some {
                if model is Ok {
                    Some(model->Ok_0)
                } else {
                    None
                }
            } else {
                Some(Model::Qa402)
            };
            let wrong_vid = spec.vid is Some && vid is Err;
            let wrong_pid = spec.pid is Some && pid is Err;
            let wrong_gen = spec.gen is Some && gen is Err;
            &&& known is None ==> (r matches Err(SpecError::Model(w)) && w@ == low@)
            &&& known is Some && wrong_vid ==> (r matches Err(SpecError::Vid(e)) && e
                == vid->Err_0)
            &&& known is Some && !wrong_vid && wrong_pid ==> (r matches Err(SpecError::Pid(e))
                && e == pid->Err_0)
            &&& known is Some && !wrong_vid && !wrong_pid && wrong_gen ==> (r matches Err(
                SpecError::Gen(e),
            ) && e@ == gen->Err_0@)
            &&& known is Some && !wrong_vid && !wrong_pid && !wrong_gen ==> {
                &&& r matches Ok(ids)
                &&& ids.model == known->0
                &&& ids.vid == (if spec.vid is Some {
                    vid->Ok_0
                } else {
                    0x16C0
                })
                &&& ids.pid == (if spec.pid is Some {
                    pid->Ok_0
                } else if ids.model is Qa402 {
                    0x4E37
                } else {
                    0x4E39
                })
                &&& spec.gen is None ==> ids.generator is None
                &&& spec.gen is Some ==> ids.generator == Some(gen->Ok_0)
            }
        }),
{
}

/// The options of a specification: what it sets, and the defaults for the
/// rest. The bus id is by default that of its position, counted from 1-1.
pub proof fn law_options(
    spec: &DeviceSpec,
    index: usize,
    ids: SpecIds,
    seed: u64,
    registry: Option<FirmwareRegistry>,
    cal_page: Option<[u8; 512]>,
    o: SimOptions,
    serial: String,
    digits: Seq<char>,
)
    requires
        index < u64::MAX,
        call_ensures(spec_to_options, (spec, index, ids, seed, registry, cal_page), o),
        call_ensures(resolve_serial, (&spec.serial, seed), serial),
        numeral(digits, index + 1),
    ensures
        o.model == ids.model && o.vid == ids.vid && o.pid == ids.pid,
        o.generator == ids.generator,
        o.serial@ == serial@,
        o.registry == registry,
        o.cal_page == cal_page,
        o.post_flash_version == spec.post_flash_version,
        o.noise_seed == spec.noise_seed,
        o.h2_dbc == spec.h2_dbc,
        o.h3_dbc == spec.h3_dbc,
        o.fw_version == (match spec.fw_version {
            Some(v) => v,
            None => 60,
        }),
        o.realtime == (spec.realtime != Some(false)),
        o.loopback == (spec.loopback != Some(false)),
        o.boot_bootloader == (spec.boot_bootloader == Some(true)),
        o.latency_samples == (match spec.latency_samples {
            Some(v) => v,
            None => 1200,
        }),
        o.noise_dbfs == (match spec.noise_dbfs {
            Some(v) => v,
            None => 0xC30C_0000u32,
        }),
        o.loopback_gain_db == (match spec.loopback_gain_db {
            Some(v) => v,
            None => 0,
        }),
        o.flash_secs == (match spec.flash_secs {
            Some(v) => v,
            None => 0,
        }),
        (o.save_firmware is Some) == (spec.save_firmware is Some),
        spec.save_firmware matches Some(d) ==> o.save_firmware->0@ == d@,
        o.busid@ == (match spec.busid {
            Some(b) => b@,
            None => "1-"@ + digits,
        }),
{
    crate::laws::text::lemma_decimal((index + 1) as nat);
    crate::laws::text::law_numerals(
        digits,
        crate::text::decimal((index + 1) as nat),
        index + 1,
    );
    assert(opt_text(o.save_firmware) == opt_text(spec.save_firmware));
}

/// An id in hex: 0x and four upper-case digits of that value.
pub open spec fn id_in_hex(t: Seq<char>, id: u16) -> bool {
    &&& t.len() == 6
    &&& t[0] == '0' && t[1] == 'x'
    &&& in_case(t[2], true) && in_case(t[3], true) && in_case(t[4], true) && in_case(t[5], true)
    &&& 4096 * worth(t[2]) + 256 * worth(t[3]) + 16 * worth(t[4]) + worth(t[5]) == id
}

/// The bytes of an id in hex.
proof fn lemma_id_in_hex(id: u16)
    ensures
        id_in_hex(crate::config::id_text(id), id),
{
    reveal_strlit("0x");
    let w = id as int;
    let (a, b, c, d) = (w / 0x1000, w / 0x100 % 16, w / 0x10 % 16, w % 16);
    assert(4096 * a + 256 * b + 16 * c + d == w);
    let t = crate::config::id_text(id);
    assert(worth(t[2]) == a && worth(t[3]) == b && worth(t[4]) == c && worth(t[5]) == d);
}

/// The same text, or none in both.
pub open spec fn same_option(a: Option<String>, b: Option<String>) -> bool {
    &&& (a is Some) == (b is Some)
    &&& a is Some ==> a->0@ == b->0@
}

/// The specification that stands for some settings.
pub proof fn law_settings(a: &Settings, spec: DeviceSpec)
    requires
        call_ensures(args_to_spec, (a,), spec),
    ensures
        spec.model matches Some(m) && m@ == (if a.model is Qa402 {
            "qa402"@
        } else {
            "qa403"@
        }),
        spec.busid matches Some(b) && b@ == a.busid@,
        spec.vid matches Some(v) && id_in_hex(v@, a.vid),
        (spec.pid is Some) == (a.pid is Some),
        spec.pid matches Some(p) ==> id_in_hex(p@, a.pid->0),
        same_option(spec.serial, a.serial),
        same_option(spec.registry, a.registry),
        same_option(spec.save_firmware, a.save_firmware),
        same_option(spec.cal_page, a.cal_page),
        same_option(spec.gen, a.gen),
        spec.fw_version == Some(a.fw_version),
        spec.boot_bootloader == Some(a.boot_bootloader),
        spec.post_flash_version == a.post_flash_version,
        spec.flash_secs == Some(a.flash_secs),
        spec.realtime == Some(!a.no_realtime),
        spec.latency_samples == Some(a.latency_samples),
        spec.noise_dbfs == Some(a.noise_dbfs),
        spec.noise_seed == a.noise_seed,
        spec.loopback == Some(!a.no_loopback),
        spec.loopback_gain_db == Some(a.loopback_gain_db),
        spec.h2_dbc == a.h2_dbc,
        spec.h3_dbc == a.h3_dbc,
{
    assert(opt_text(spec.serial) == opt_text(a.serial));
    assert(opt_text(spec.registry) == opt_text(a.registry));
    assert(opt_text(spec.save_firmware) == opt_text(a.save_firmware));
    assert(opt_text(spec.cal_page) == opt_text(a.cal_page));
    assert(opt_text(spec.gen) == opt_text(a.gen));
    assert(opt_text(spec.model) == Some(lower(a.model.label())));
    assert(opt_text(spec.vid) == Some(crate::config::id_text(a.vid)));
    lemma_id_in_hex(a.vid);
    if let Some(p) = a.pid {
        lemma_id_in_hex(p);
    }
    reveal_strlit("QA402");
    reveal_strlit("QA403");
    reveal_strlit("qa402");
    reveal_strlit("qa403");
    assert(lower("QA402"@) =~= "qa402"@);
    assert(lower("QA403"@) =~= "qa403"@);
}

/// A specification by default sets nothing, and an environment lists at least
/// one device.
pub proof fn law_environment(
    blank: DeviceSpec,
    devices: Vec<DeviceSpec>,
    r: Result<EnvConfig, NoDevices>,
)
    requires
        call_ensures(<DeviceSpec as Default>::default, (), blank),
        call_ensures(EnvConfig::load, (devices,), r),
    ensures
        blank.model is None && blank.busid is None && blank.serial is None && blank.vid is None
            && blank.pid is None && blank.fw_version is None && blank.boot_bootloader is None,
        blank.post_flash_version is None && blank.flash_secs is None && blank.registry is None
            && blank.save_firmware is None && blank.cal_page is None && blank.realtime is None,
        blank.latency_samples is None && blank.noise_dbfs is None && blank.noise_seed is None
            && blank.loopback is None && blank.loopback_gain_db is None,
        blank.h2_dbc is None && blank.h3_dbc is None && blank.gen is None,
        (r is Ok) == (devices@.len() > 0),
        r matches Ok(env) ==> env.devices@ == devices@,
{
}

/// The first bus id that was used before is found, and none where all differ.
pub proof fn law_first_duplicate(busids: &[String], r: Option<usize>, i: int, j: int)
    requires
        call_ensures(first_duplicate, (busids,), r),
        0 <= i < j < busids@.len(),
    ensures
        r is None ==> busids@[i]@ != busids@[j]@,
        r matches Some(k) ==> {
            &&& k < busids@.len()
            &&& j < k ==> busids@[i]@ != busids@[j]@
            &&& exists|h: int| 0 <= h < k && #[trigger] busids@[h]@ == busids@[k as int]@
        },
{
    let all = texts(busids@);
    assert(all[i] == busids@[i]@ && all[j] == busids@[j]@);
    assert(!crate::config::repeats(all, j) ==> all[i] != all[j]);
    if r is None {
        assert(crate::config::all_unique(all));
        assert(!crate::config::repeats(all, j));
    }
    if let Some(k) = r {
        assert(crate::config::repeats(all, k as int));
        let h = choose|h: int| 0 <= h < k && #[trigger] all[h] == all[k as int];
        assert(all[h] == busids@[h]@ && all[k as int] == busids@[k as int]@);
        assert(busids@[h]@ == busids@[k as int]@);
        if j < k {
            assert(!crate::config::repeats(all, j));
        }
    }
}

/// The version a release counts with: its text as a decimal 32-bit number.
pub open spec fn counts_with(r: Release, v: u32) -> bool {
    r.firmware_version matches Some(t) && reads_number(t@, 10, 0xFFFF_FFFF, Ok(v))
}

/// Whether a release names an image: one of its texts is the digest up to the
/// case of its letters.
pub open spec fn names(r: Release, key: Seq<char>) -> bool {
    exists|i: int| 0 <= i < r.images@.len() && lowered(#[trigger] r.images@[i]@, key)
}

/// Whether a text in lower case is this key. Letters of other alphabets have
/// the lower case that the standard library gives them.
pub open spec fn lowered(s: Seq<char>, key: Seq<char>) -> bool {
    if is_ascii_chars(s) {
        &&& s.len() == key.len()
        &&& forall|i: int|
            0 <= i < s.len() ==> #[trigger] key[i] as u32 == (if 65 <= s[i] as u32 <= 90 {
                s[i] as u32 + 32
            } else {
                s[i] as int
            })
    } else {
        key == unicode_lower(s)
    }
}

/// The version of a release.
proof fn lemma_counts_with(r: Release)
    ensures
        release_version(version_text(r)) matches Some(v) ==> counts_with(r, v),
        release_version(version_text(r)) is None ==> forall|v: u32| !#[trigger] counts_with(r, v),
{
    if let Some(t) = r.firmware_version {
        crate::laws::text::lemma_unsigned(t@, 10, 0xFFFF_FFFF);
        if release_version(version_text(r)) is None {
            let e = crate::text::unsigned(t@, 10, 0xFFFF_FFFF)->Err_0;
            assert forall|v: u32| !#[trigger] counts_with(r, v) by {
                if counts_with(r, v) {
                    lemma_one_reading(t@, v, e);
                }
            }
        }
    }
}

/// A text that is a number is not refused.
proof fn lemma_one_reading(s: Seq<char>, v: u32, e: IntError)
    requires
        reads_number(s, 10, 0xFFFF_FFFF, Ok(v)),
    ensures
        !reads_number(s, 10, 0xFFFF_FFFF, Err(e)),
{
    if reads_number(s, 10, 0xFFFF_FFFF, Err(e)) {
        let d = crate::laws::text::behind_sign(s);
        let i = choose|i: int|
            #[trigger] crate::laws::text::stops_at(d, i, 10, 0xFFFF_FFFF, e);
        assert(0 <= worth(d[i]) < 10);
        lemma_grows(d, i + 1);
    }
}

/// More digits make no smaller number.
proof fn lemma_grows(s: Seq<char>, i: int)
    requires
        all_digits(s, 10),
        0 <= i <= s.len(),
    ensures
        0 <= made_of(s.take(i), 10) <= made_of(s, 10),
    decreases s.len() - i, i,
{
    lemma_made_positive(s, i);
    if i < s.len() {
        lemma_grows(s, i + 1);
        assert(s.take(i + 1).drop_last() =~= s.take(i));
        assert(0 <= worth(s[i]));
    } else {
        assert(s.take(i) =~= s);
    }
}

/// Digits make no negative number.
proof fn lemma_made_positive(s: Seq<char>, i: int)
    requires
        all_digits(s, 10),
        0 <= i <= s.len(),
    ensures
        0 <= made_of(s.take(i), 10),
    decreases i,
{
    if i > 0 {
        lemma_made_positive(s, i - 1);
        assert(s.take(i).drop_last() =~= s.take(i - 1));
        assert(s.take(i).last() == s[i - 1]);
        assert(0 <= worth(s[i - 1]));
    }
}

/// Characters with the same number are the same.
proof fn lemma_same_char(c: char, d: char)
    ensures
        c as u32 == d as u32 ==> c == d,
{
}

/// Which images a release names.
proof fn lemma_names(r: Release, key: Seq<char>)
    ensures
        names_image(texts(r.images@), key) == names(r, key),
{
    let all = texts(r.images@);
    assert forall|i: int| 0 <= i < all.len() implies (key == lower_text(#[trigger] all[i]))
        == lowered(r.images@[i]@, key) by {
        assert(all[i] == r.images@[i]@);
        let s = all[i];
        if lowered(s, key) && is_ascii_chars(s) {
            assert(lower(s) =~= key) by {
                assert forall|j: int| 0 <= j < s.len() implies lower(s)[j] == key[j] by {
                    lemma_same_char(lower(s)[j], key[j]);
                }
            }
        }
    }
    if names(r, key) {
        let i = choose|i: int| 0 <= i < r.images@.len() && lowered(#[trigger] r.images@[i]@, key);
        assert(key == lower_text(all[i]));
    }
    if names_image(all, key) {
        let i = choose|i: int| 0 <= i < all.len() && key == lower_text(#[trigger] all[i]);
        assert(lowered(r.images@[i]@, key));
    }
}

/// The last release that counts and names an image, if there is one.
pub open spec fn last_naming(releases: Seq<Release>, key: Seq<char>, v: u32) -> bool {
    exists|i: int| #[trigger] naming_at(releases, key, v, i)
}

/// Whether the release at a place is that one.
pub open spec fn naming_at(releases: Seq<Release>, key: Seq<char>, v: u32, i: int) -> bool {
    &&& 0 <= i < releases.len()
    &&& counts_with(releases[i], v)
    &&& names(releases[i], key)
    &&& forall|j: int, w: u32|
        i < j < releases.len() && #[trigger] counts_with(releases[j], w) ==> !names(
            releases[j],
            key,
        )
}

/// What a registry answers.
proof fn lemma_registry(releases: Seq<Release>, key: Seq<char>)
    ensures
        registry_of(releases).contains_key(key) ==> last_naming(
            releases,
            key,
            registry_of(releases)[key],
        ),
        !registry_of(releases).contains_key(key) ==> forall|j: int, w: u32|
            0 <= j < releases.len() && #[trigger] counts_with(releases[j], w) ==> !names(
                releases[j],
                key,
            ),
    decreases releases.len(),
{
    if releases.len() > 0 {
        let front = releases.drop_last();
        let r = releases.last();
        assert(front.push(r) =~= releases);
        lemma_registry(front, key);
        lemma_registry_lookup(front, r, key);
        lemma_counts_with(r);
        lemma_names(r, key);
        let n = releases.len() - 1;
        let ver = release_version(version_text(r));
        if ver is Some && names(r, key) {
            assert(naming_at(releases, key, ver->0, n));
        } else {
            assert forall|w: u32| #[trigger] counts_with(r, w) implies !names(r, key) by {}
            if registry_of(front).contains_key(key) {
                let v = registry_of(front)[key];
                let i = choose|i: int| #[trigger] naming_at(front, key, v, i);
                assert(releases[i] == front[i]);
                assert forall|j: int, w: u32|
                    i < j < releases.len() && #[trigger] counts_with(releases[j], w) implies !names(
                    releases[j],
                    key,
                ) by {
                    if j < n {
                        assert(front[j] == releases[j]);
                        assert(counts_with(front[j], w));
                    } else {
                        assert(releases[j] == r);
                    }
                }
                assert(naming_at(releases, key, v, i));
            } else {
                assert forall|j: int, w: u32|
                    0 <= j < releases.len() && #[trigger] counts_with(releases[j], w) implies !names(
                    releases[j],
                    key,
                ) by {
                    if j < n {
                        assert(front[j] == releases[j]);
                        assert(counts_with(front[j], w));
                    } else {
                        assert(releases[j] == r);
                    }
                }
            }
        }
    }
}

/// A registry answers with the version of the last release that has a version
/// and names the image, in whatever case; with nothing where none does.
pub proof fn law_registry(
    releases: &[Release],
    r: FirmwareRegistry,
    sha: &String,
    v: Option<u32>,
    j: int,
    w: u32,
)
    requires
        call_ensures(FirmwareRegistry::load, (releases,), r),
        call_ensures(FirmwareRegistry::version_of_sha, (&r, sha), v),
        0 <= j < releases@.len(),
        counts_with(releases@[j], w),
    ensures
        v matches Some(x) ==> last_naming(releases@, sha@, x),
        v is None ==> !names(releases@[j], sha@),
{
    lemma_registry(releases@, sha@);
}

/// An image is looked up by its digest, 64 lower-case hex digits; a registry
/// counts what it knows, and one that knows nothing is refused.
pub proof fn law_registry_use(
    releases: &[Release],
    r: FirmwareRegistry,
    n: usize,
    empty: bool,
    loaded: Result<FirmwareRegistry, EmptyRegistry>,
    image: &[u8],
    hex: String,
    v: Option<u32>,
    w: Option<u32>,
    copy: FirmwareRegistry,
    blank: FirmwareRegistry,
    i: int,
)
    requires
        image@.len() < 0x2000_0000_0000_0000,
        call_ensures(FirmwareRegistry::load, (releases,), r),
        call_ensures(FirmwareRegistry::len, (&r,), n),
        call_ensures(FirmwareRegistry::is_empty, (&r,), empty),
        call_ensures(load_registry, (releases,), loaded),
        call_ensures(sha256_hex, (image,), hex),
        call_ensures(FirmwareRegistry::version_of, (&r, image), v),
        call_ensures(FirmwareRegistry::version_of_sha, (&r, &hex), w),
        call_ensures(FirmwareRegistry::clone, (&r,), copy),
        call_ensures(<FirmwareRegistry as Default>::default, (), blank),
        0 <= i < 64,
    ensures
        n == r@.dom().len(),
        empty == (n == 0),
        w == (if r@.contains_key(hex@) {
            Some(r@[hex@])
        } else {
            None
        }),
        (loaded is Err) == empty,
        loaded matches Ok(l) ==> l@ == r@,
        hex@.len() == 64,
        in_case(hex@[i], false),
        v == w,
        copy@ == r@,
        blank@.len() == 0,
{
    assert(r@.dom().finite());
    if n == 0 {
        assert(r@.dom() =~= Set::empty());
        assert(r@ =~= Map::empty());
    }
    let d = crate::registry::sha256_of(image@);
    assert(hex@ == crate::text::hex_of(d));
    let b = d[i / 2] as int;
    assert(0 <= b / 16 < 16 && 0 <= b % 16 < 16);
}

} // verus!

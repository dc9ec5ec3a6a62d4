//! Device specifications: from command-line settings or a multi-device
//! environment file to simulator options.
//!
//! Every field of a specification is optional with a sensible default; a device
//! with a fixed serial reproduces exactly across runs, while `"random"` (or
//! omitting it) picks a fresh one each launch. Levels and times that are not
//! whole numbers are carried as the bit patterns of their IEEE 754
//! single-precision values.

use crate::calpage::{page_crc_ok, page_of, page_valid, PAGE_LEN};
use crate::options::{
    lemma_digit_char_value, random_serial, serial_text, GenChannel, GenSpec, Model, SimOptions,
    DEFAULT_FW_VERSION, DEFAULT_LATENCY, DEFAULT_NOISE_DBFS, DEFAULT_VID,
};
use crate::registry::{registry_of, FirmwareRegistry, Release};
use crate::text::{
    accumulate, decimal, digit_char, digit_value, hex4, is_word, lower, lower_chars, parse_unsigned,
    push_decimal, push_hex4, same_text, split, split_text, string_of, texts, trim, trim_end,
    trim_start, trimmed, unsigned, white_space, IntError,
};
use vstd::prelude::*;
use vstd::string::StringExecFns;

verus! {

/// One device in the environment. All fields optional.
#[derive(Debug, Clone)]
pub struct DeviceSpec {
    /// "qa402" or "qa403".
    pub model: Option<String>,
    /// USB/IP bus id; auto-assigned "1-N" per position if omitted. Unique.
    pub busid: Option<String>,
    /// Fixed serial (such as "AB12_CD34"), or "random"/"dynamic"/omitted for a
    /// fresh one each launch.
    pub serial: Option<String>,
    /// USB vendor id, hex ("0x16C0") or decimal.
    pub vid: Option<String>,
    /// USB product id; defaults to the model's real PID.
    pub pid: Option<String>,
    /// Firmware version served by register 0x10.
    pub fw_version: Option<u32>,
    /// Boot straight into the NXP KBOOT bootloader (recovery mode).
    pub boot_bootloader: Option<bool>,
    /// Version reported after a fake flash (when not resolved via a registry).
    pub post_flash_version: Option<u32>,
    /// Simulated flash-write seconds.
    pub flash_secs: Option<u32>,
    /// Path to a firmware-registry.json for sha256 to version lookup.
    pub registry: Option<String>,
    /// Directory to save every received firmware image.
    pub save_firmware: Option<String>,
    /// Calibration page: "real" (default), "random", or a 512-byte file path.
    pub cal_page: Option<String>,
    /// Pace ADC at the sample rate (default true).
    pub realtime: Option<bool>,
    /// Loopback round-trip latency, in samples.
    pub latency_samples: Option<usize>,
    /// ADC noise floor, dBFS.
    pub noise_dbfs: Option<u32>,
    /// Fixed noise seed: every stream start replays the identical noise.
    pub noise_seed: Option<u64>,
    /// DAC to ADC loopback enabled (default true).
    pub loopback: Option<bool>,
    /// Extra loopback gain, dB.
    pub loopback_gain_db: Option<u32>,
    /// 2nd-harmonic distortion, dBc.
    pub h2_dbc: Option<u32>,
    /// 3rd-harmonic distortion, dBc.
    pub h3_dbc: Option<u32>,
    /// Independent input generator, "FREQ:LEVEL_DBV[:left|right|both]".
    pub gen: Option<String>,
}

/// A device specification that sets nothing.
pub open spec fn blank_spec() -> DeviceSpec {
    DeviceSpec {
        model: None,
        busid: None,
        serial: None,
        vid: None,
        pid: None,
        fw_version: None,
        boot_bootloader: None,
        post_flash_version: None,
        flash_secs: None,
        registry: None,
        save_firmware: None,
        cal_page: None,
        realtime: None,
        latency_samples: None,
        noise_dbfs: None,
        noise_seed: None,
        loopback: None,
        loopback_gain_db: None,
        h2_dbc: None,
        h3_dbc: None,
        gen: None,
    }
}

impl Default for DeviceSpec {
    fn default() -> (spec: Self)
        ensures
            spec == blank_spec(),
    {
        DeviceSpec {
            model: None,
            busid: None,
            serial: None,
            vid: None,
            pid: None,
            fw_version: None,
            boot_bootloader: None,
            post_flash_version: None,
            flash_secs: None,
            registry: None,
            save_firmware: None,
            cal_page: None,
            realtime: None,
            latency_samples: None,
            noise_dbfs: None,
            noise_seed: None,
            loopback: None,
            loopback_gain_db: None,
            h2_dbc: None,
            h3_dbc: None,
            gen: None,
        }
    }
}

/// The environment lists no device.
#[derive(Debug, Clone, Copy, PartialEq, Eq, Structural)]
pub struct NoDevices;

/// The environment file: a list of devices, at least one.
#[derive(Debug, Clone)]
pub struct EnvConfig {
    pub devices: Vec<DeviceSpec>,
}

impl EnvConfig {
    /// The environment of the devices a file lists.
    pub fn load(devices: Vec<DeviceSpec>) -> (r: Result<Self, NoDevices>)
        ensures
            r is Err <==> devices@.len() == 0,
            r matches Ok(env) ==> env.devices == devices,
    {
        if devices.len() == 0 {
            Err(NoDevices)
        } else {
            Ok(EnvConfig { devices })
        }
    }
}

/// The characters of an optional text.
pub open spec fn opt_text(o: Option<String>) -> Option<Seq<char>> {
    match o {
        Some(s) => Some(s@),
        None => None,
    }
}

/// Copies an optional text.
fn copy_text(o: &Option<String>) -> (c: Option<String>)
    ensures
        opt_text(c) == opt_text(*o),
{
    match o {
        Some(s) => Some(s.clone()),
        None => None,
    }
}

/// The model a word names, in any ASCII case.
pub open spec fn model_of(s: Seq<char>) -> Option<Model> {
    if lower(s) == "qa402"@ {
        Some(Model::Qa402)
    } else if lower(s) == "qa403"@ {
        Some(Model::Qa403)
    } else {
        None
    }
}

/// What is expected where a model is not known.
pub open spec fn model_error() -> Seq<char> {
    "expected qa402 or qa403"@
}

/// The words "qa402" and "qa403" are in lower case.
proof fn lemma_model_words()
    ensures
        lower("qa402"@) == "qa402"@,
        lower("qa403"@) == "qa403"@,
        lower("QA402"@) == "qa402"@,
        lower("QA403"@) == "qa403"@,
        "qa402"@ != "qa403"@,
{
    reveal_strlit("qa402");
    reveal_strlit("qa403");
    reveal_strlit("QA402");
    reveal_strlit("QA403");
    assert(lower("qa402"@) =~= "qa402"@);
    assert(lower("qa403"@) =~= "qa403"@);
    assert(lower("QA402"@) =~= "qa402"@);
    assert(lower("QA403"@) =~= "qa403"@);
    assert("qa402"@[4] != "qa403"@[4]);
}

/// Parses a model name.
pub fn parse_model(s: &str) -> (r: Result<Model, String>)
    ensures
        match r {
            Ok(m) => model_of(s@) == Some(m),
            Err(e) => model_of(s@) is None && e@ == model_error(),
        },
{
    proof {
        lemma_model_words();
    }
    if is_word(s, "qa402") {
        Ok(Model::Qa402)
    } else if is_word(s, "qa403") {
        Ok(Model::Qa403)
    } else {
        Err("expected qa402 or qa403".to_string())
    }
}

/// Whether a text starts with a hex prefix.
pub open spec fn hex_prefixed(s: Seq<char>) -> bool {
    s.len() >= 2 && s[0] == '0' && (s[1] == 'x' || s[1] == 'X')
}

/// The 16-bit id a text holds, decimal or with a hex prefix.
pub open spec fn u16_of(s: Seq<char>) -> Result<int, IntError> {
    let t = trim(s);
    if hex_prefixed(t) {
        unsigned(t.skip(2), 16, 0xFFFF)
    } else {
        unsigned(t, 10, 0xFFFF)
    }
}

/// Reads a 16-bit id, decimal or hex ("0x16C0").
pub fn id_number(s: &str) -> (r: Result<u16, IntError>)
    ensures
        match r {
            Ok(v) => u16_of(s@) == Ok::<int, IntError>(v as int),
            Err(e) => u16_of(s@) == Err::<int, IntError>(e),
        },
{
    let t = trimmed(s);
    let hex: bool = t.len() >= 2 && t[0] == '0' && (t[1] == 'x' || t[1] == 'X');
    let (start, radix): (usize, u32) = if hex {
        (2, 16)
    } else {
        (0, 10)
    };
    let digits = vstd::slice::slice_subrange(t.as_slice(), start, t.len());
    assert(digits@ =~= t@.skip(start as int));
    assert(t@.skip(0) =~= t@);
    proof {
        lemma_unsigned_bound(digits@, radix as int, 0xFFFF);
    }
    match parse_unsigned(digits, radix, 0xFFFF) {
        Ok(v) => Ok(v as u16),
        Err(e) => Err(e),
    }
}

/// Parses a 16-bit id, with the error in words.
pub fn parse_u16(s: &str) -> (r: Result<u16, String>)
    ensures
        match r {
            Ok(v) => u16_of(s@) == Ok::<int, IntError>(v as int),
            Err(e) => u16_of(s@) matches Err(i) && e@ == i.words(),
        },
{
    match id_number(s) {
        Ok(v) => Ok(v),
        Err(e) => Err(e.message().to_string()),
    }
}

/// A parsed integer is at most the maximum.
proof fn lemma_unsigned_bound(s: Seq<char>, radix: int, max: int)
    requires
        0 <= max,
    ensures
        unsigned(s, radix, max) matches Ok(v) ==> v <= max,
{
    lemma_accumulate_bound(0, s, radix, max);
    lemma_accumulate_bound(0, s.skip(1), radix, max);
}

/// Accumulating digits stays within the maximum.
proof fn lemma_accumulate_bound(acc: int, s: Seq<char>, radix: int, max: int)
    requires
        acc <= max,
    ensures
        accumulate(acc, s, radix, max) matches Ok(v) ==> v <= max,
    decreases s.len(),
{
    if s.len() > 0 {
        if let Some(d) = digit_value(s[0], radix) {
            if acc * radix + d <= max {
                lemma_accumulate_bound(acc * radix + d, s.skip(1), radix, max);
            }
        }
    }
}

/// Why a generator specification is refused.
#[derive(Debug)]
pub enum GenError {
    /// Not two or three fields.
    Shape,
    /// The first field is not a number.
    Frequency,
    /// The second field is not a number.
    Level,
    /// The third field, in lower case, names no channel.
    Channel(String),
}

/// The contents of a [`GenError`].
pub enum GenErrorView {
    Shape,
    Frequency,
    Level,
    Channel(Seq<char>),
}

impl View for GenError {
    type V = GenErrorView;

    open spec fn view(&self) -> GenErrorView {
        match self {
            GenError::Shape => GenErrorView::Shape,
            GenError::Frequency => GenErrorView::Frequency,
            GenError::Level => GenErrorView::Level,
            GenError::Channel(c) => GenErrorView::Channel(c@),
        }
    }
}

/// The channel a word names, in any ASCII case.
pub open spec fn channel_of(s: Seq<char>) -> Option<GenChannel> {
    if lower(s) == "left"@ {
        Some(GenChannel::Left)
    } else if lower(s) == "right"@ {
        Some(GenChannel::Right)
    } else if lower(s) == "both"@ {
        Some(GenChannel::Both)
    } else {
        None
    }
}

/// The generator a specification describes, given what its first two fields
/// are as numbers: the field count is judged first, then the frequency, the
/// level and the channel.
pub open spec fn generator_of(s: Seq<char>, freq: Option<u32>, level: Option<u32>) -> Result<
    GenSpec,
    GenErrorView,
> {
    let parts = split(s, ':');
    if parts.len() < 2 || parts.len() > 3 {
        Err(GenErrorView::Shape)
    } else {
        match (freq, level) {
            (None, _) => Err(GenErrorView::Frequency),
            (Some(_), None) => Err(GenErrorView::Level),
            (Some(freq_hz), Some(level_dbv)) => if parts.len() == 2 {
                Ok(GenSpec { freq_hz, level_dbv, channel: GenChannel::Both })
            } else {
                match channel_of(parts[2]) {
                    Some(channel) => Ok(GenSpec { freq_hz, level_dbv, channel }),
                    None => Err(GenErrorView::Channel(lower(parts[2]))),
                }
            },
        }
    }
}

/// The frequency and level fields of a generator specification, to be read as
/// numbers; `None` where the field count is wrong.
pub fn gen_numbers(s: &str) -> (r: Option<(String, String)>)
    ensures
        match r {
            Some((f, l)) => {
                &&& 2 <= split(s@, ':').len() <= 3
                &&& f@ == split(s@, ':')[0]
                &&& l@ == split(s@, ':')[1]
            },
            None => split(s@, ':').len() < 2 || split(s@, ':').len() > 3,
        },
{
    let parts = split_text(s, ':');
    if parts.len() < 2 || parts.len() > 3 {
        return None;
    }
    assert(texts(parts@)[0] == parts@[0]@ && texts(parts@)[1] == parts@[1]@);
    Some((parts[0].clone(), parts[1].clone()))
}

/// The words that name channels are in lower case and differ.
proof fn lemma_channel_words()
    ensures
        lower("left"@) == "left"@,
        lower("right"@) == "right"@,
        lower("both"@) == "both"@,
{
    reveal_strlit("left");
    reveal_strlit("right");
    reveal_strlit("both");
    assert(lower("left"@) =~= "left"@);
    assert(lower("right"@) =~= "right"@);
    assert(lower("both"@) =~= "both"@);
}

/// Parses a generator specification "FREQ_HZ:LEVEL_DBV[:left|right|both]".
/// `freq` and `level` are the first two fields as numbers, where they are
/// numbers (see [`gen_numbers`]).
pub fn parse_gen(s: &str, freq: Option<u32>, level: Option<u32>) -> (r: Result<GenSpec, GenError>)
    ensures
        match r {
            Ok(g) => generator_of(s@, freq, level) == Ok::<GenSpec, GenErrorView>(g),
            Err(e) => generator_of(s@, freq, level) == Err::<GenSpec, GenErrorView>(e@),
        },
{
    let parts = split_text(s, ':');
    if parts.len() < 2 || parts.len() > 3 {
        return Err(GenError::Shape);
    }
    let freq_hz: u32 = match freq {
        Some(f) => f,
        None => {
            return Err(GenError::Frequency);
        },
    };
    let level_dbv: u32 = match level {
        Some(l) => l,
        None => {
            return Err(GenError::Level);
        },
    };
    if parts.len() == 2 {
        return Ok(GenSpec { freq_hz, level_dbv, channel: GenChannel::Both });
    }
    proof {
        lemma_channel_words();
    }
    assert(texts(parts@)[2] == parts@[2]@);
    let c = parts[2].as_str();
    let channel = if is_word(c, "left") {
        GenChannel::Left
    } else if is_word(c, "right") {
        GenChannel::Right
    } else if is_word(c, "both") {
        GenChannel::Both
    } else {
        let name = lower_chars(c);
        return Err(GenError::Channel(string_of(&name)));
    };
    Ok(GenSpec { freq_hz, level_dbv, channel })
}

/// Whether a serial is to be drawn: absent, or one of the words for it.
pub open spec fn asks_random_serial(spec: Option<Seq<char>>) -> bool {
    match spec {
        None => true,
        Some(s) => lower(s) == lower("random"@) || lower(s) == lower("dynamic"@),
    }
}

/// The serial of a device, drawn from `seed` where one is to be drawn.
pub open spec fn serial_of(spec: Option<Seq<char>>, seed: u64) -> Seq<char> {
    if asks_random_serial(spec) {
        serial_text(seed)
    } else {
        spec->0
    }
}

/// A random serial in the real units' format when the spec is absent or asks
/// for "random"/"dynamic"; otherwise the fixed serial verbatim.
pub fn resolve_serial(spec: &Option<String>, seed: u64) -> (s: String)
    ensures
        s@ == serial_of(opt_text(*spec), seed),
{
    match spec {
        None => random_serial(seed),
        Some(s) => if is_word(s.as_str(), "random") || is_word(s.as_str(), "dynamic") {
            random_serial(seed)
        } else {
            s.clone()
        },
    }
}

/// A fixed serial reproduces exactly, whatever is drawn at launch.
pub proof fn lemma_fixed_serial(serial: Seq<char>, one: u64, other: u64)
    requires
        !asks_random_serial(Some(serial)),
    ensures
        serial_of(Some(serial), one) == serial,
        serial_of(Some(serial), other) == serial,
{
}

/// A registry file without any usable entry.
#[derive(Debug, Clone, Copy, PartialEq, Eq, Structural)]
pub struct EmptyRegistry;

/// The firmware registry of the releases a file lists.
pub fn load_registry(releases: &[Release]) -> (r: Result<FirmwareRegistry, EmptyRegistry>)
    ensures
        r is Err <==> registry_of(releases@) == Map::<Seq<char>, u32>::empty(),
        r matches Ok(reg) ==> reg@ == registry_of(releases@),
{
    let r = FirmwareRegistry::load(releases);
    if r.is_empty() {
        Err(EmptyRegistry)
    } else {
        Ok(r)
    }
}

/// Where a calibration page comes from.
#[derive(Debug)]
pub enum CalSource {
    /// The unit's factory page.
    Factory,
    /// A generated page.
    Random,
    /// A 512-byte file.
    File(String),
}

/// Where a `cal_page` specification takes the page from: absent or "real" is
/// the factory page, "random" a generated one, anything else a file.
pub fn cal_source(spec: &Option<String>) -> (c: CalSource)
    ensures
        match *spec {
            None => c is Factory,
            Some(s) => if lower(s@) == lower("real"@) {
                c is Factory
            } else if lower(s@) == lower("random"@) {
                c is Random
            } else {
                c matches CalSource::File(path) && path@ == s@
            },
        },
{
    match spec {
        None => CalSource::Factory,
        Some(s) => if is_word(s.as_str(), "real") {
            CalSource::Factory
        } else if is_word(s.as_str(), "random") {
            CalSource::Random
        } else {
            CalSource::File(s.clone())
        },
    }
}

/// A calibration page read from a file, with whether its CRC holds; `None`
/// unless the file has exactly 512 bytes. A page with a bad CRC is served all
/// the same.
pub fn file_page(bytes: &[u8]) -> (r: Option<([u8; 512], bool)>)
    ensures
        match r {
            Some((page, ok)) => {
                &&& bytes@.len() == PAGE_LEN
                &&& page@ == bytes@
                &&& ok == page_valid(bytes@)
            },
            None => bytes@.len() != PAGE_LEN,
        },
{
    if bytes.len() != PAGE_LEN {
        return None;
    }
    let page = page_of(bytes);
    let ok = page_crc_ok(&page);
    Some((page, ok))
}

/// What a specification says of the device's identity and input.
#[derive(Debug, Clone, Copy)]
pub struct SpecIds {
    pub model: Model,
    pub vid: u16,
    pub pid: u16,
    pub generator: Option<GenSpec>,
}

/// Why a specification is refused.
#[derive(Debug)]
pub enum SpecError {
    /// The model, in lower case, is not known.
    Model(String),
    /// The vendor id is not a 16-bit number.
    Vid(IntError),
    /// The product id is not a 16-bit number.
    Pid(IntError),
    /// The generator is not understood.
    Gen(GenError),
}

/// The contents of a [`SpecError`].
pub enum SpecErrorView {
    Model(Seq<char>),
    Vid(IntError),
    Pid(IntError),
    Gen(GenErrorView),
}

impl View for SpecError {
    type V = SpecErrorView;

    open spec fn view(&self) -> SpecErrorView {
        match self {
            SpecError::Model(m) => SpecErrorView::Model(m@),
            SpecError::Vid(e) => SpecErrorView::Vid(*e),
            SpecError::Pid(e) => SpecErrorView::Pid(*e),
            SpecError::Gen(e) => SpecErrorView::Gen(e@),
        }
    }
}

/// The model of a specification; a QA402 by default.
pub open spec fn spec_model(spec: DeviceSpec) -> Result<Model, SpecErrorView> {
    match spec.model {
        Some(s) => match model_of(s@) {
            Some(m) => Ok(m),
            None => Err(SpecErrorView::Model(lower(s@))),
        },
        None => Ok(Model::Qa402),
    }
}

/// An id of a specification, or its default.
pub open spec fn spec_id(text: Option<String>, default: u16) -> Result<int, IntError> {
    match text {
        Some(s) => u16_of(s@),
        None => Ok(default as int),
    }
}

/// The generator of a specification, if it names one.
pub open spec fn spec_generator(
    spec: DeviceSpec,
    freq: Option<u32>,
    level: Option<u32>,
) -> Result<Option<GenSpec>, GenErrorView> {
    match spec.gen {
        Some(s) => match generator_of(s@, freq, level) {
            Ok(g) => Ok(Some(g)),
            Err(e) => Err(e),
        },
        None => Ok(None),
    }
}

/// What a specification says of identity and input: model, vendor id, product
/// id and generator are judged in this order.
pub open spec fn spec_ids(spec: DeviceSpec, freq: Option<u32>, level: Option<u32>) -> Result<
    SpecIds,
    SpecErrorView,
> {
    match spec_model(spec) {
        Err(e) => Err(e),
        Ok(model) => match spec_id(spec.vid, DEFAULT_VID) {
            Err(e) => Err(SpecErrorView::Vid(e)),
            Ok(vid) => match spec_id(spec.pid, model.pid()) {
                Err(e) => Err(SpecErrorView::Pid(e)),
                Ok(pid) => match spec_generator(spec, freq, level) {
                    Err(e) => Err(SpecErrorView::Gen(e)),
                    Ok(generator) => Ok(
                        SpecIds { model, vid: vid as u16, pid: pid as u16, generator },
                    ),
                },
            },
        },
    }
}

/// Reads the identity and input of a specification. `freq` and `level` are the
/// number fields of its generator, where they are numbers.
pub fn check_spec(spec: &DeviceSpec, freq: Option<u32>, level: Option<u32>) -> (r: Result<
    SpecIds,
    SpecError,
>)
    ensures
        match r {
            Ok(ids) => spec_ids(*spec, freq, level) == Ok::<SpecIds, SpecErrorView>(ids),
            Err(e) => spec_ids(*spec, freq, level) == Err::<SpecIds, SpecErrorView>(e@),
        },
{
    let model = match &spec.model {
        Some(s) => match parse_model(s.as_str()) {
            Ok(m) => m,
            Err(_) => {
                let name = lower_chars(s.as_str());
                return Err(SpecError::Model(string_of(&name)));
            },
        },
        None => Model::Qa402,
    };
    let vid: u16 = match &spec.vid {
        Some(s) => match id_number(s.as_str()) {
            Ok(v) => v,
            Err(e) => {
                return Err(SpecError::Vid(e));
            },
        },
        None => DEFAULT_VID,
    };
    let pid: u16 = match &spec.pid {
        Some(s) => match id_number(s.as_str()) {
            Ok(v) => v,
            Err(e) => {
                return Err(SpecError::Pid(e));
            },
        },
        None => model.default_pid(),
    };
    let generator = match &spec.gen {
        Some(s) => match parse_gen(s.as_str(), freq, level) {
            Ok(g) => Some(g),
            Err(e) => {
                return Err(SpecError::Gen(e));
            },
        },
        None => None,
    };
    Ok(SpecIds { model, vid, pid, generator })
}

/// The bus id a device gets by its position.
pub open spec fn default_busid(index: nat) -> Seq<char> {
    "1-"@ + decimal(index + 1)
}

/// A value, or its default.
pub open spec fn value_or<T>(o: Option<T>, default: T) -> T {
    match o {
        Some(v) => v,
        None => default,
    }
}

/// The options of the device that a specification describes at a position.
pub open spec fn describes(
    o: SimOptions,
    spec: DeviceSpec,
    index: nat,
    ids: SpecIds,
    seed: u64,
    registry: Option<FirmwareRegistry>,
    cal_page: Option<[u8; 512]>,
) -> bool {
    &&& o.model == ids.model
    &&& o.vid == ids.vid
    &&& o.pid == ids.pid
    &&& o.serial@ == serial_of(opt_text(spec.serial), seed)
    &&& o.fw_version == value_or(spec.fw_version, DEFAULT_FW_VERSION)
    &&& o.post_flash_version == spec.post_flash_version
    &&& o.registry == registry
    &&& o.realtime == value_or(spec.realtime, true)
    &&& o.latency_samples == value_or(spec.latency_samples, DEFAULT_LATENCY)
    &&& o.noise_dbfs == value_or(spec.noise_dbfs, DEFAULT_NOISE_DBFS)
    &&& o.noise_seed == spec.noise_seed
    &&& o.loopback == value_or(spec.loopback, true)
    &&& o.loopback_gain_db == value_or(spec.loopback_gain_db, 0)
    &&& o.h2_dbc == spec.h2_dbc
    &&& o.h3_dbc == spec.h3_dbc
    &&& o.generator == ids.generator
    &&& o.busid@ == value_or(opt_text(spec.busid), default_busid(index))
    &&& opt_text(o.save_firmware) == opt_text(spec.save_firmware)
    &&& o.cal_page == cal_page
    &&& o.boot_bootloader == value_or(spec.boot_bootloader, false)
    &&& o.flash_secs == value_or(spec.flash_secs, 0)
}

/// Builds the runtime options for one device from its spec. `index` seeds the
/// auto-assigned busid ("1-N") when the spec omits one; `ids` is what
/// [`check_spec`] read; `registry` and `cal_page` are what the spec's files
/// hold.
pub fn spec_to_options(
    spec: &DeviceSpec,
    index: usize,
    ids: SpecIds,
    seed: u64,
    registry: Option<FirmwareRegistry>,
    cal_page: Option<[u8; 512]>,
) -> (o: SimOptions)
    requires
        index < u64::MAX,
    ensures
        describes(o, *spec, index as nat, ids, seed, registry, cal_page),
{
    let busid = match &spec.busid {
        Some(b) => b.clone(),
        None => {
            let mut b = String::new();
            b.append("1-");
            push_decimal(&mut b, index as u64 + 1);
            assert(b@ =~= default_busid(index as nat));
            b
        },
    };
    SimOptions {
        model: ids.model,
        vid: ids.vid,
        pid: ids.pid,
        serial: resolve_serial(&spec.serial, seed),
        fw_version: spec.fw_version.unwrap_or(DEFAULT_FW_VERSION),
        post_flash_version: spec.post_flash_version,
        registry,
        realtime: spec.realtime.unwrap_or(true),
        latency_samples: spec.latency_samples.unwrap_or(DEFAULT_LATENCY),
        noise_dbfs: spec.noise_dbfs.unwrap_or(DEFAULT_NOISE_DBFS),
        noise_seed: spec.noise_seed,
        loopback: spec.loopback.unwrap_or(true),
        loopback_gain_db: spec.loopback_gain_db.unwrap_or(0),
        h2_dbc: spec.h2_dbc,
        h3_dbc: spec.h3_dbc,
        generator: ids.generator,
        busid,
        save_firmware: copy_text(&spec.save_firmware),
        cal_page,
        boot_bootloader: spec.boot_bootloader.unwrap_or(false),
        flash_secs: spec.flash_secs.unwrap_or(0),
    }
}

/// The single-device settings of the command line.
#[derive(Debug)]
pub struct Settings {
    pub model: Model,
    pub vid: u16,
    pub pid: Option<u16>,
    pub serial: Option<String>,
    pub fw_version: u32,
    pub post_flash_version: Option<u32>,
    pub registry: Option<String>,
    pub busid: String,
    pub no_realtime: bool,
    pub latency_samples: usize,
    pub noise_dbfs: u32,
    pub noise_seed: Option<u64>,
    pub no_loopback: bool,
    pub loopback_gain_db: u32,
    pub h2_dbc: Option<u32>,
    pub h3_dbc: Option<u32>,
    pub gen: Option<String>,
    pub save_firmware: Option<String>,
    pub cal_page: Option<String>,
    pub flash_secs: u32,
    pub boot_bootloader: bool,
}

/// An id as text, in hex.
pub open spec fn id_text(id: u16) -> Seq<char> {
    "0x"@ + hex4(id)
}

/// An id as text, in hex.
fn id_string(id: u16) -> (s: String)
    ensures
        s@ == id_text(id),
{
    let mut s = String::new();
    s.append("0x");
    push_hex4(&mut s, id);
    assert(s@ =~= id_text(id));
    s
}

/// Whether a specification says what the settings say.
pub open spec fn restates(spec: DeviceSpec, a: Settings) -> bool {
    &&& opt_text(spec.model) == Some(lower(a.model.label()))
    &&& opt_text(spec.busid) == Some(a.busid@)
    &&& opt_text(spec.serial) == opt_text(a.serial)
    &&& opt_text(spec.vid) == Some(id_text(a.vid))
    &&& opt_text(spec.pid) == (match a.pid {
        Some(p) => Some(id_text(p)),
        None => None,
    })
    &&& spec.fw_version == Some(a.fw_version)
    &&& spec.boot_bootloader == Some(a.boot_bootloader)
    &&& spec.post_flash_version == a.post_flash_version
    &&& spec.flash_secs == Some(a.flash_secs)
    &&& opt_text(spec.registry) == opt_text(a.registry)
    &&& opt_text(spec.save_firmware) == opt_text(a.save_firmware)
    &&& opt_text(spec.cal_page) == opt_text(a.cal_page)
    &&& spec.realtime == Some(!a.no_realtime)
    &&& spec.latency_samples == Some(a.latency_samples)
    &&& spec.noise_dbfs == Some(a.noise_dbfs)
    &&& spec.noise_seed == a.noise_seed
    &&& spec.loopback == Some(!a.no_loopback)
    &&& spec.loopback_gain_db == Some(a.loopback_gain_db)
    &&& spec.h2_dbc == a.h2_dbc
    &&& spec.h3_dbc == a.h3_dbc
    &&& opt_text(spec.gen) == opt_text(a.gen)
}

/// The single-device spec described by the settings.
pub fn args_to_spec(a: &Settings) -> (spec: DeviceSpec)
    ensures
        restates(spec, *a),
{
    let name = lower_chars(a.model.name());
    DeviceSpec {
        model: Some(string_of(&name)),
        busid: Some(a.busid.clone()),
        serial: copy_text(&a.serial),
        vid: Some(id_string(a.vid)),
        pid: match a.pid {
            Some(p) => Some(id_string(p)),
            None => None,
        },
        fw_version: Some(a.fw_version),
        boot_bootloader: Some(a.boot_bootloader),
        post_flash_version: a.post_flash_version,
        flash_secs: Some(a.flash_secs),
        registry: copy_text(&a.registry),
        save_firmware: copy_text(&a.save_firmware),
        cal_page: copy_text(&a.cal_page),
        realtime: Some(!a.no_realtime),
        latency_samples: Some(a.latency_samples),
        noise_dbfs: Some(a.noise_dbfs),
        noise_seed: a.noise_seed,
        loopback: Some(!a.no_loopback),
        loopback_gain_db: Some(a.loopback_gain_db),
        h2_dbc: a.h2_dbc,
        h3_dbc: a.h3_dbc,
        gen: copy_text(&a.gen),
    }
}

/// Whether the bus id at `i` was used before.
pub open spec fn repeats(busids: Seq<Seq<char>>, i: int) -> bool {
    exists|j: int| 0 <= j < i && #[trigger] busids[j] == busids[i]
}

/// Whether no bus id is used twice.
pub open spec fn all_unique(busids: Seq<Seq<char>>) -> bool {
    forall|k: int| 0 <= k < busids.len() ==> !#[trigger] repeats(busids, k)
}

/// The first device whose bus id was used before: each device needs a unique
/// bus id.
pub fn first_duplicate(busids: &[String]) -> (r: Option<usize>)
    ensures
        match r {
            Some(i) => {
                &&& i < busids@.len()
                &&& repeats(texts(busids@), i as int)
                &&& forall|k: int| 0 <= k < i ==> !#[trigger] repeats(texts(busids@), k)
            },
            None => forall|k: int|
                0 <= k < busids@.len() ==> !#[trigger] repeats(texts(busids@), k),
        },
        r is None ==> all_unique(texts(busids@)),
{
    let ghost all = texts(busids@);
    let mut i: usize = 0;
    while i < busids.len()
        invariant
            i <= busids@.len(),
            all == texts(busids@),
            forall|k: int| 0 <= k < i ==> !#[trigger] repeats(all, k),
        decreases busids@.len() - i,
    {
        let mut j: usize = 0;
        while j < i
            invariant
                j <= i < busids@.len(),
                all == texts(busids@),
                forall|k: int| 0 <= k < j ==> #[trigger] all[k] != all[i as int],
                forall|k: int| 0 <= k < i ==> !#[trigger] repeats(all, k),
            decreases i - j,
        {
            assert(all[j as int] == busids@[j as int]@ && all[i as int] == busids@[i as int]@);
            if same_text(busids[j].as_str(), busids[i].as_str()) {
                assert(repeats(all, i as int));
                return Some(i);
            }
            j += 1;
        }
        i += 1;
    }
    None
}

/// Four hex digits read back as the value they were made from.
proof fn lemma_hex4_value(v: u16)
    ensures
        unsigned(hex4(v), 16, 0xFFFF) == Ok::<int, IntError>(v as int),
{
    let n = v as int;
    let (a, b, c, d) = (n / 0x1000, n / 0x100 % 16, n / 0x10 % 16, n % 16);
    lemma_digit_char_value(a);
    lemma_digit_char_value(b);
    lemma_digit_char_value(c);
    lemma_digit_char_value(d);
    let s = hex4(v);
    let (s1, s2, s3, s4) = (s.skip(1), s.skip(1).skip(1), s.skip(1).skip(1).skip(1), s.skip(
        1,
    ).skip(1).skip(1).skip(1));
    assert(s[0] == digit_char(a, 'A') && s1[0] == digit_char(b, 'A') && s2[0] == digit_char(
        c,
        'A',
    ) && s3[0] == digit_char(d, 'A') && s4.len() == 0);
    let (x1, x2, x3, x4) = (a, a * 16 + b, (a * 16 + b) * 16 + c, ((a * 16 + b) * 16 + c) * 16 + d);
    assert(x4 == n);
    assert(accumulate(x4, s4, 16, 0xFFFF) == Ok::<int, IntError>(x4));
    assert(accumulate(x3, s3, 16, 0xFFFF) == Ok::<int, IntError>(x4));
    assert(accumulate(x2, s2, 16, 0xFFFF) == Ok::<int, IntError>(x4));
    assert(accumulate(x1, s1, 16, 0xFFFF) == Ok::<int, IntError>(x4));
    assert(accumulate(0, s, 16, 0xFFFF) == Ok::<int, IntError>(x4));
}

/// An id printed in hex reads back as itself.
pub proof fn lemma_id_round_trip(id: u16)
    ensures
        u16_of(id_text(id)) == Ok::<int, IntError>(id as int),
{
    reveal_strlit("0x");
    let t = id_text(id);
    let last = id as int % 16;
    lemma_digit_char_value(last);
    assert(t[0] == '0' && t[1] == 'x' && t.len() == 6);
    assert(t.last() == digit_char(last, 'A'));
    assert(!white_space(t[0]) && !white_space(t.last()));
    assert(trim_start(t) == t);
    assert(trim_end(t) == t);
    assert(t.skip(2) =~= hex4(id));
    lemma_hex4_value(id);
}

/// The specification printed for some settings describes the same device as
/// the settings: reading it back gives the same model, ids, firmware version,
/// flags and levels. A file written from the current settings reproduces them.
pub proof fn lemma_settings_reproduce(
    a: Settings,
    spec: DeviceSpec,
    freq: Option<u32>,
    level: Option<u32>,
    o: SimOptions,
    index: nat,
    ids: SpecIds,
    seed: u64,
    registry: Option<FirmwareRegistry>,
    cal_page: Option<[u8; 512]>,
)
    requires
        restates(spec, a),
        spec_ids(spec, freq, level) == Ok::<SpecIds, SpecErrorView>(ids),
        describes(o, spec, index, ids, seed, registry, cal_page),
    ensures
        o.model == a.model,
        o.vid == a.vid,
        o.pid == value_or(a.pid, a.model.pid()),
        o.busid@ == a.busid@,
        o.serial@ == serial_of(opt_text(a.serial), seed),
        o.fw_version == a.fw_version,
        o.post_flash_version == a.post_flash_version,
        o.realtime == !a.no_realtime,
        o.latency_samples == a.latency_samples,
        o.noise_dbfs == a.noise_dbfs,
        o.noise_seed == a.noise_seed,
        o.loopback == !a.no_loopback,
        o.loopback_gain_db == a.loopback_gain_db,
        o.h2_dbc == a.h2_dbc,
        o.h3_dbc == a.h3_dbc,
        opt_text(o.save_firmware) == opt_text(a.save_firmware),
        o.flash_secs == a.flash_secs,
        o.boot_bootloader == a.boot_bootloader,
        a.gen is None ==> o.generator is None,
{
    lemma_model_words();
    lemma_lower_label(a.model);
    lemma_id_round_trip(a.vid);
    if let Some(p) = a.pid {
        lemma_id_round_trip(p);
    }
}

/// The lower-case name of a model names it.
proof fn lemma_lower_label(m: Model)
    ensures
        model_of(lower(m.label())) == Some(m),
{
    lemma_model_words();
    assert(lower(lower(m.label())) =~= lower(m.label()));
}

/// Without a generator, the specification printed for some settings is never
/// refused.
pub proof fn lemma_settings_accepted(
    a: Settings,
    spec: DeviceSpec,
    freq: Option<u32>,
    level: Option<u32>,
)
    requires
        restates(spec, a),
        a.gen is None,
    ensures
        spec_ids(spec, freq, level) is Ok,
{
    lemma_lower_label(a.model);
    lemma_id_round_trip(a.vid);
    if let Some(p) = a.pid {
        lemma_id_round_trip(p);
    }
}

/// Devices among whose bus ids no repetition is found have unique bus ids.
pub proof fn lemma_unique_busids(busids: Seq<Seq<char>>, i: int, j: int)
    requires
        forall|k: int| 0 <= k < busids.len() ==> !#[trigger] repeats(busids, k),
        0 <= i < j < busids.len(),
    ensures
        busids[i] != busids[j],
{
    assert(!repeats(busids, j));
}

/// Distinct numbers have distinct decimal digits.
proof fn lemma_decimal_injective(a: nat, b: nat)
    requires
        decimal(a) == decimal(b),
    ensures
        a == b,
    decreases a,
{
    lemma_decimal_len(a);
    lemma_decimal_len(b);
    assert(decimal(a).last() == digit_char(a as int % 10, 'a'));
    assert(decimal(b).last() == digit_char(b as int % 10, 'a'));
    assert(a % 10 == b % 10);
    if a >= 10 && b >= 10 {
        assert(decimal(a).drop_last() =~= decimal(a / 10));
        assert(decimal(b).drop_last() =~= decimal(b / 10));
        lemma_decimal_injective(a / 10, b / 10);
    }
}

/// A number has one digit exactly when it is below ten.
proof fn lemma_decimal_len(n: nat)
    ensures
        decimal(n).len() >= 1,
        decimal(n).len() == 1 <==> n < 10,
    decreases n,
{
    if n >= 10 {
        lemma_decimal_len(n / 10);
    }
}

/// Devices that leave their bus id to their position never collide.
pub proof fn lemma_default_busids_differ(i: nat, j: nat)
    requires
        i != j,
    ensures
        default_busid(i) != default_busid(j),
{
    if default_busid(i) == default_busid(j) {
        let n = "1-"@.len();
        assert(default_busid(i).skip(n as int) =~= decimal(i + 1));
        assert(default_busid(j).skip(n as int) =~= decimal(j + 1));
        lemma_decimal_injective(i + 1, j + 1);
    }
}

} // verus!

//! The analyzer persona: QA402/QA403 register bus and the queues of the fake
//! ADC/DAC streaming.

use crate::backend::{
    answer, step, DeviceSummary, InStep, InView, Moment, SetupPacket, Stall, UsbBackend,
};
use crate::calpage::{adc_trim, adc_trim_db, dac_trim, dac_trim_db, ADC_LEVELS_DBV, DAC_LEVELS_DBV};
use crate::identity::{analyzer_identity, is_analyzer_identity, Identity};
use crate::options::{serial_number, Model, SimOptions};
use crate::sim::{event_views, images_fit, EventView, SimEvent};
use crate::stream::{
    fresh_stream, frames_of, lemma_noise_state_nonzero, lemma_noise_states_differ,
    lemma_seeds_start_apart, noise_draws, noise_start, same_start, Block, Frame, Stream,
    StreamView,
};
use crate::wire::{
    be32, be32_at, get_be32, get_le32, le32, le32_at, lemma_be32_bytes, lemma_le32_bytes, prefix,
    put_be32, take_prefix,
};
use std::collections::{HashMap, VecDeque};
use vstd::prelude::*;

verus! {

broadcast use vstd::std_specs::hash::group_hash_axioms;

/// Register addresses.
pub const LINK_KEEPALIVE: u8 = 0x00;

pub const INPUT_GAIN: u8 = 0x05;

pub const OUTPUT_GAIN: u8 = 0x06;

pub const STREAM_CTRL: u8 = 0x08;

pub const SAMPLE_RATE: u8 = 0x09;

pub const UNKNOWN_INIT_0A: u8 = 0x0A;

pub const CAL_PAGE_SELECT: u8 = 0x0D;

pub const BOOTLOADER_ENTRY: u8 = 0x0F;

pub const FIRMWARE_VERSION: u8 = 0x10;

pub const TELEM_USB_VOLTAGE: u8 = 0x11;

pub const TELEM_USB_CURRENT: u8 = 0x12;

pub const TELEM_ISO_CURRENT: u8 = 0x13;

pub const TELEM_EXTRA: u8 = 0x15;

pub const TELEM_TEMPERATURE: u8 = 0x16;

pub const CALIBRATION: u8 = 0x19;

pub const CAPABILITY: u8 = 0x1B;

pub const SERIAL_NUMBER: u8 = 0x1D;

pub const STREAM_STATUS: u8 = 0x1E;

/// First and second value that unlock the bootloader, in this order.
pub const BOOTLOADER_MAGIC_1: u32 = 0xDEAD_BEEF;

pub const BOOTLOADER_MAGIC_2: u32 = 0xCAFE_BABE;

/// STREAM_CTRL values.
pub const STREAM_START: u32 = 5;

pub const STREAM_STOP: u32 = 0;

/// The capability word.
pub const CAPABILITY_WORD: u32 = 0x4000_0040;

/// STREAM_STATUS right after a stop.
pub const STATUS_STOPPED: u32 = 0x40;

/// How long STREAM_STATUS remembers a stop, in nanoseconds.
pub const STOP_MEMORY_NS: u64 = 500_000_000;

/// Endpoint number of the register bus.
pub const EP_REGISTERS: u8 = 1;

/// Endpoint number of the audio stream.
pub const EP_AUDIO: u8 = 2;

/// Seconds of audio the DAC queue holds.
pub const DAC_QUEUE_SECONDS: u32 = 10;

/// How long a due ADC block waits for late DAC samples in real time, in
/// nanoseconds.
pub const REALTIME_GRACE_NS: u64 = 20_000_000;

/// How long it waits when samples are served as fast as asked.
pub const FAST_GRACE_NS: u64 = 250_000_000;

/// The sample rate of an index.
pub open spec fn rate_of(idx: u32) -> u32 {
    if idx == 0 {
        48_000
    } else if idx == 1 {
        96_000
    } else if idx == 2 {
        192_000
    } else {
        384_000
    }
}

/// Sample-rate index to Hz.
pub fn rate_hz(idx: u32) -> (hz: u32)
    ensures
        hz == rate_of(idx),
{
    match idx {
        0 => 48_000,
        1 => 96_000,
        2 => 192_000,
        _ => 384_000,
    }
}

/// The contents of an [`Analyzer`], apart from its USB identity.
pub struct AnalyzerView {
    pub model: Model,
    pub serial: u32,
    pub fw_version: u32,
    pub noise_seed: Option<u64>,
    pub latency: nat,
    pub echo: u32,
    pub input_gain: u32,
    pub output_gain: u32,
    pub rate_idx: u32,
    pub reg0a: u32,
    pub misc: Map<u8, u32>,
    pub cal_page: Seq<u8>,
    pub cal_ptr: int,
    pub boot_stage: u8,
    pub last_stop: Option<u64>,
    pub replies: Seq<u32>,
    pub stream: Option<StreamView>,
    pub rebooting: bool,
    pub events: Seq<EventView>,
}

/// The analyzer persona.
#[derive(Debug)]
pub struct Analyzer {
    identity: Identity,
    model: Model,
    serial: u32,
    fw_version: u32,
    noise_seed: Option<u64>,
    latency: usize,
    echo: u32,
    input_gain: u32,
    output_gain: u32,
    rate_idx: u32,
    reg0a: u32,
    /// Unmapped registers written by the host: stored and echoed on read.
    misc: HashMap<u8, u32>,
    cal_page: [u8; 512],
    cal_ptr: usize,
    /// Bootloader-entry latch: 1 after the first magic, waiting for the second.
    boot_stage: u8,
    last_stop: Option<u64>,
    /// Queued register-read replies for bulk IN 0x81.
    replies: VecDeque<u32>,
    stream: Option<Stream>,
    /// Set once the bootloader magic completed: all traffic is going away.
    rebooting: bool,
    /// Events for the simulator, oldest first.
    events: Vec<SimEvent>,
}

impl View for Analyzer {
    type V = AnalyzerView;

    closed spec fn view(&self) -> AnalyzerView {
        AnalyzerView {
            model: self.model,
            serial: self.serial,
            fw_version: self.fw_version,
            noise_seed: self.noise_seed,
            latency: self.latency as nat,
            echo: self.echo,
            input_gain: self.input_gain,
            output_gain: self.output_gain,
            rate_idx: self.rate_idx,
            reg0a: self.reg0a,
            misc: self.misc@,
            cal_page: self.cal_page@,
            cal_ptr: self.cal_ptr as int,
            boot_stage: self.boot_stage,
            last_stop: self.last_stop,
            replies: self.replies@,
            stream: match self.stream {
                Some(s) => Some(s@),
                None => None,
            },
            rebooting: self.rebooting,
            events: event_views(self.events@),
        }
    }
}

impl AnalyzerView {
    /// What holds between transfers: gains and rate are valid indices, the
    /// readout stands on a word of the page, and the noise state is not stuck.
    pub open spec fn wf(self) -> bool {
        &&& self.input_gain <= 7
        &&& self.output_gain <= 3
        &&& self.rate_idx <= self.model.top_rate()
        &&& self.cal_page.len() == 512
        &&& 0 <= self.cal_ptr < 512
        &&& self.cal_ptr % 4 == 0
        &&& self.boot_stage <= 1
        &&& self.stream matches Some(s) ==> s.rng != 0
        &&& images_fit(self.events)
    }

    /// The value register `r` reads as.
    pub open spec fn value(self, r: u8, m: Moment) -> u32 {
        if r == LINK_KEEPALIVE {
            self.echo
        } else if r == INPUT_GAIN {
            self.input_gain
        } else if r == OUTPUT_GAIN {
            self.output_gain
        } else if r == STREAM_CTRL {
            if self.stream is Some {
                STREAM_START
            } else {
                STREAM_STOP
            }
        } else if r == SAMPLE_RATE {
            self.rate_idx
        } else if r == UNKNOWN_INIT_0A {
            self.reg0a
        } else if r == FIRMWARE_VERSION {
            self.fw_version
        } else if r == TELEM_USB_VOLTAGE {
            m.telemetry.usb_voltage
        } else if r == TELEM_USB_CURRENT {
            m.telemetry.usb_current
        } else if r == TELEM_ISO_CURRENT {
            m.telemetry.iso_current
        } else if r == TELEM_EXTRA {
            0
        } else if r == TELEM_TEMPERATURE {
            m.telemetry.temperature
        } else if r == CALIBRATION {
            le32_at(self.cal_page, self.cal_ptr)
        } else if r == CAPABILITY {
            CAPABILITY_WORD
        } else if r == SERIAL_NUMBER {
            self.serial
        } else if r == STREAM_STATUS {
            match self.last_stop {
                Some(t) if m.now - t < STOP_MEMORY_NS => STATUS_STOPPED,
                _ => 0,
            }
        } else if self.misc.contains_key(r) {
            self.misc[r]
        } else {
            0
        }
    }

    /// The state after register `r` was read: the calibration readout moves on
    /// by a word, and wraps at the end of the page.
    pub open spec fn after_read(self, r: u8) -> AnalyzerView {
        if r == CALIBRATION {
            AnalyzerView { cal_ptr: (self.cal_ptr + 4) % 512, ..self }
        } else {
            self
        }
    }

    /// The seed of a stream that starts now.
    pub open spec fn stream_seed(self, m: Moment) -> u64 {
        match self.noise_seed {
            Some(s) => s,
            None => m.seed,
        }
    }

    /// The state after `v` was written to register `r`.
    pub open spec fn after_write(self, r: u8, v: u32, m: Moment) -> AnalyzerView {
        if r == LINK_KEEPALIVE {
            AnalyzerView { echo: v, ..self }
        } else if r == INPUT_GAIN {
            AnalyzerView { input_gain: v % 8, ..self }
        } else if r == OUTPUT_GAIN {
            AnalyzerView { output_gain: v % 4, ..self }
        } else if r == STREAM_CTRL {
            if v == STREAM_START && self.stream is None {
                AnalyzerView {
                    stream: Some(fresh_stream(self.latency, self.stream_seed(m), m.now)),
                    ..self
                }
            } else if v == STREAM_STOP {
                AnalyzerView { stream: None, last_stop: Some(m.now), ..self }
            } else {
                self
            }
        } else if r == SAMPLE_RATE {
            AnalyzerView {
                rate_idx: if v <= self.model.top_rate() {
                    v
                } else {
                    self.model.top_rate()
                },
                ..self
            }
        } else if r == UNKNOWN_INIT_0A {
            AnalyzerView { reg0a: v, ..self }
        } else if r == CAL_PAGE_SELECT {
            AnalyzerView { cal_ptr: 0, ..self }
        } else if r == BOOTLOADER_ENTRY {
            if v == BOOTLOADER_MAGIC_1 {
                AnalyzerView { boot_stage: 1, ..self }
            } else if v == BOOTLOADER_MAGIC_2 && self.boot_stage == 1 {
                AnalyzerView {
                    boot_stage: 0,
                    stream: None,
                    rebooting: true,
                    events: if self.rebooting {
                        self.events
                    } else {
                        self.events.push(EventView::EnterBootloader)
                    },
                    ..self
                }
            } else {
                AnalyzerView { boot_stage: 0, ..self }
            }
        } else {
            AnalyzerView { misc: self.misc.insert(r, v), ..self }
        }
    }

    /// The state after one 5-byte register frame `[reg][value BE]`: a set high
    /// bit in the first byte asks for a read, whose reply is queued.
    pub open spec fn after_frame(self, frame: Seq<u8>, m: Moment) -> AnalyzerView {
        if frame[0] >= 0x80 {
            let r = (frame[0] - 0x80) as u8;
            AnalyzerView {
                replies: self.replies.push(self.value(r, m)),
                ..self.after_read(r)
            }
        } else {
            self.after_write(frame[0], be32_at(frame, 1), m)
        }
    }

    /// The state after `n` register frames, back to back in `data`.
    pub open spec fn after_frames(self, data: Seq<u8>, n: nat, m: Moment) -> AnalyzerView
        decreases n,
    {
        if n == 0 {
            self
        } else {
            self.after_frames(data, (n - 1) as nat, m).after_frame(
                data.subrange(5 * (n - 1), 5 * n as int),
                m,
            )
        }
    }

    /// The state after a DAC block arrived: queued on the running stream,
    /// dropped without one.
    pub open spec fn after_dac_block(self, data: Seq<u8>) -> AnalyzerView {
        match self.stream {
            Some(s) => AnalyzerView {
                stream: Some(
                    s.after_dac(frames_of(data), rate_of(self.rate_idx) * DAC_QUEUE_SECONDS),
                ),
                ..self
            },
            None => self,
        }
    }

    /// The state after an OUT transfer on endpoint number `ep`.
    pub open spec fn after_out(self, ep: u8, data: Seq<u8>, m: Moment) -> AnalyzerView {
        if ep == EP_REGISTERS {
            self.after_frames(data, data.len() / 5, m)
        } else if ep == EP_AUDIO {
            self.after_dac_block(data)
        } else {
            self
        }
    }

    /// What an IN transfer on endpoint number `ep` finds: the oldest register
    /// reply, big-endian and cut to the asked length; an audio block of as many
    /// whole frames as fit.
    pub open spec fn in_step(self, ep: u8, len: usize) -> Result<InView, Stall> {
        if ep == EP_REGISTERS {
            if self.replies.len() == 0 {
                Ok(InView::Pending)
            } else {
                Ok(InView::Data(prefix(be32(self.replies[0]), len as int)))
            }
        } else if ep == EP_AUDIO {
            if len < 8 {
                Ok(InView::Data(Seq::empty()))
            } else {
                Ok(InView::Audio((len / 8) as usize))
            }
        } else {
            Err(Stall)
        }
    }

    /// The state after that IN transfer.
    pub open spec fn after_in(self, ep: u8) -> AnalyzerView {
        if ep == EP_REGISTERS && self.replies.len() > 0 {
            AnalyzerView { replies: self.replies.skip(1), ..self }
        } else {
            self
        }
    }
}

/// The state of a freshly powered unit: max-headroom input, lowest output
/// range, 48 kHz.
pub open spec fn powered_on(
    opts: SimOptions,
    fw_version: u32,
    factory: Seq<u8>,
) -> AnalyzerView {
    AnalyzerView {
        model: opts.model,
        serial: serial_number(opts.serial@),
        fw_version,
        noise_seed: opts.noise_seed,
        latency: opts.latency_samples as nat,
        echo: 0,
        input_gain: 7,
        output_gain: 0,
        rate_idx: 0,
        reg0a: 0,
        misc: Map::empty(),
        cal_page: match opts.cal_page {
            Some(page) => page@,
            None => factory,
        },
        cal_ptr: 0,
        boot_stage: 0,
        last_stop: None,
        replies: Seq::empty(),
        stream: None,
        rebooting: false,
        events: Seq::empty(),
    }
}

impl Analyzer {
    /// What holds between transfers.
    pub open spec fn wf(self) -> bool {
        &&& self@.wf()
        &&& self.id().device_descriptor@.len() == 18
    }

    /// The USB identity.
    pub closed spec fn id(self) -> Identity {
        self.identity
    }

    /// Powers the analyzer persona on. `factory` is the calibration page of a
    /// unit that has no custom one.
    pub fn new(opts: &SimOptions, fw_version: u32, factory: &[u8; 512]) -> (a: Self)
        ensures
            a.wf(),
            is_analyzer_identity(
                a.id(),
                opts.vid,
                opts.pid,
                opts.model.product(),
                opts.serial@,
            ),
            a@ == powered_on(*opts, fw_version, factory@),
    {
        let product = opts.model.product_string();
        let identity = analyzer_identity(
            opts.vid,
            opts.pid,
            product.as_str(),
            opts.serial.as_str(),
        );
        let a = Analyzer {
            identity,
            model: opts.model,
            serial: opts.serial_u32(),
            fw_version,
            noise_seed: opts.noise_seed,
            latency: opts.latency_samples,
            echo: 0,
            input_gain: 7,
            output_gain: 0,
            rate_idx: 0,
            reg0a: 0,
            misc: HashMap::new(),
            cal_page: match opts.cal_page {
                Some(page) => page,
                None => *factory,
            },
            cal_ptr: 0,
            boot_stage: 0,
            last_stop: None,
            replies: VecDeque::new(),
            stream: None,
            rebooting: false,
            events: Vec::new(),
        };
        assert(a@.events =~= Seq::<EventView>::empty());
        a
    }

    /// Reads a register.
    pub fn read_value(&mut self, r: u8, m: &Moment) -> (v: u32)
        requires
            old(self).wf(),
        ensures
            final(self).wf(),
            final(self).id() == old(self).id(),
            v == old(self)@.value(r, *m),
            final(self)@ == old(self)@.after_read(r),
    {
        match r {
            LINK_KEEPALIVE => self.echo,
            INPUT_GAIN => self.input_gain,
            OUTPUT_GAIN => self.output_gain,
            STREAM_CTRL => if self.stream.is_some() {
                STREAM_START
            } else {
                STREAM_STOP
            },
            SAMPLE_RATE => self.rate_idx,
            UNKNOWN_INIT_0A => self.reg0a,
            FIRMWARE_VERSION => self.fw_version,
            TELEM_USB_VOLTAGE => m.telemetry.usb_voltage,
            TELEM_USB_CURRENT => m.telemetry.usb_current,
            TELEM_ISO_CURRENT => m.telemetry.iso_current,
            TELEM_EXTRA => 0,
            TELEM_TEMPERATURE => m.telemetry.temperature,
            CALIBRATION => {
                // The wire carries the word big-endian and the host re-emits it
                // little-endian, so the page bytes are packed little-endian
                // here: the host's page then matches this one byte for byte.
                let v: u32 = get_le32(self.cal_page.as_slice(), self.cal_ptr);
                self.cal_ptr = (self.cal_ptr + 4) % 512;
                v
            },
            CAPABILITY => CAPABILITY_WORD,
            SERIAL_NUMBER => self.serial,
            STREAM_STATUS => match self.last_stop {
                Some(t) => if m.now < t || m.now - t < STOP_MEMORY_NS {
                    STATUS_STOPPED
                } else {
                    0
                },
                None => 0,
            },
            _ => match self.misc.get(&r) {
                Some(v) => *v,
                None => 0,
            },
        }
    }

    /// Writes a register.
    pub fn write_value(&mut self, r: u8, v: u32, m: &Moment)
        requires
            old(self).wf(),
        ensures
            final(self).wf(),
            final(self).id() == old(self).id(),
            final(self)@ == old(self)@.after_write(r, v, *m),
    {
        match r {
            LINK_KEEPALIVE => {
                self.echo = v;
            },
            INPUT_GAIN => {
                self.input_gain = v % 8;
            },
            OUTPUT_GAIN => {
                self.output_gain = v % 4;
            },
            STREAM_CTRL => {
                if v == STREAM_START {
                    if self.stream.is_none() {
                        let seed: u64 = match self.noise_seed {
                            Some(s) => s,
                            None => m.seed,
                        };
                        self.stream = Some(Stream::new(self.latency, seed, m.now));
                    }
                } else if v == STREAM_STOP {
                    self.stream = None;
                    self.last_stop = Some(m.now);
                }
            },
            SAMPLE_RATE => {
                let max: u32 = self.model.max_rate_index();
                self.rate_idx = if v <= max {
                    v
                } else {
                    max
                };
            },
            UNKNOWN_INIT_0A => {
                self.reg0a = v;
            },
            CAL_PAGE_SELECT => {
                self.cal_ptr = 0;
            },
            BOOTLOADER_ENTRY => {
                // Strict two-magic unlock, order-sensitive.
                if v == BOOTLOADER_MAGIC_1 {
                    self.boot_stage = 1;
                } else if v == BOOTLOADER_MAGIC_2 && self.boot_stage == 1 {
                    self.boot_stage = 0;
                    self.stream = None;
                    if !self.rebooting {
                        self.rebooting = true;
                        self.events.push(SimEvent::EnterBootloader);
                        assert(self@.events =~= old(self)@.events.push(EventView::EnterBootloader));
                    }
                } else {
                    self.boot_stage = 0;
                }
            },
            _ => {
                let _ = self.misc.insert(r, v);
            },
        }
    }

    /// Processes one 5-byte register frame `[reg][value BE]`.
    pub fn handle_frame(&mut self, frame: &[u8], m: &Moment)
        requires
            old(self).wf(),
            frame@.len() >= 5,
        ensures
            final(self).wf(),
            final(self).id() == old(self).id(),
            final(self)@ == old(self)@.after_frame(frame@, *m),
    {
        let r: u8 = frame[0];
        let v: u32 = get_be32(frame, 1);
        if r >= 0x80 {
            let value: u32 = self.read_value(r - 0x80, m);
            self.replies.push_back(value);
        } else {
            self.write_value(r, v, m);
        }
    }

    /// Queues a DAC block (interleaved i32 LE, right sample first on the wire)
    /// for loopback.
    pub fn handle_dac_block(&mut self, data: &[u8])
        requires
            old(self).wf(),
        ensures
            final(self).wf(),
            final(self).id() == old(self).id(),
            final(self)@ == old(self)@.after_dac_block(data@),
    {
        let cap: usize = (rate_hz(self.rate_idx) * DAC_QUEUE_SECONDS) as usize;
        match &mut self.stream {
            Some(s) => s.queue_dac(data, cap),
            None => {},
        }
    }
}

impl UsbBackend for Analyzer {
    open spec fn valid(&self) -> bool {
        self.wf()
    }

    open spec fn device(&self) -> Identity {
        self.id()
    }

    open spec fn pending_events(&self) -> Seq<EventView> {
        self@.events
    }

    fn summary(&self) -> (s: DeviceSummary) {
        self.identity.summary.clone()
    }

    /// Standard requests, then the MS OS 2.0 descriptor-set fetch (Windows
    /// WinUSB auto-binding); anything else stalls.
    fn control(&mut self, setup: SetupPacket, data_out: &[u8]) -> (r: Result<Vec<u8>, Stall>)
        ensures
            final(self)@ == old(self)@,
            answer(r) == (match old(self).id().standard_answer(setup) {
                Some(a) => a,
                None => match old(self).id().vendor_answer(setup) {
                    Some(a) => a,
                    None => Err(Stall),
                },
            }),
    {
        if let Some(handled) = self.identity.handle_standard(setup) {
            return handled;
        }
        if let Some(handled) = self.identity.handle_vendor(setup) {
            return handled;
        }
        Err(Stall)
    }

    /// Register frames are 5 bytes each, several per transfer are tolerated;
    /// audio goes to the DAC queue. Other endpoints stall.
    fn out_transfer(&mut self, ep: u8, data: &[u8], m: &Moment) -> (r: Result<usize, Stall>)
        ensures
            r == (if ep % 0x80 == EP_REGISTERS || ep % 0x80 == EP_AUDIO {
                Ok(data@.len() as usize)
            } else {
                Err(Stall)
            }),
            final(self)@ == old(self)@.after_out(ep % 0x80, data@, *m),
    {
        match ep % 0x80 {
            EP_REGISTERS => {
                let len: usize = data.len();
                let n: usize = len / 5;
                let mut k: usize = 0;
                while k < n
                    invariant
                        k <= n,
                        len == data@.len(),
                        n == len / 5,
                        self.wf(),
                        self.id() == old(self).id(),
                        self@ == old(self)@.after_frames(data@, k as nat, *m),
                    decreases n - k,
                {
                    let frame = vstd::slice::slice_subrange(data, 5 * k, 5 * k + 5);
                    self.handle_frame(frame, m);
                    k += 1;
                }
                Ok(data.len())
            },
            EP_AUDIO => {
                self.handle_dac_block(data);
                Ok(data.len())
            },
            _ => Err(Stall),
        }
    }

    /// Register-read replies are 4 bytes big-endian, a short packet.
    fn in_transfer(&mut self, ep: u8, len: usize) -> (r: Result<InStep, Stall>)
        ensures
            step(r) == old(self)@.in_step(ep % 0x80, len),
            final(self)@ == old(self)@.after_in(ep % 0x80),
    {
        match ep % 0x80 {
            EP_REGISTERS => match self.replies.pop_front() {
                Some(v) => {
                    let mut bytes: Vec<u8> = Vec::new();
                    put_be32(&mut bytes, v);
                    assert(bytes@ =~= be32(v));
                    assert(self@.replies =~= old(self)@.replies.skip(1));
                    Ok(InStep::Data(take_prefix(&bytes, len)))
                },
                None => Ok(InStep::Pending),
            },
            EP_AUDIO => {
                let n: usize = len / 8;
                if n == 0 {
                    let none: Vec<u8> = Vec::new();
                    Ok(InStep::Data(none))
                } else {
                    Ok(InStep::Audio(n))
                }
            },
            _ => Err(Stall),
        }
    }

    fn take_events(&mut self) -> (events: Vec<SimEvent>)
        ensures
            final(self)@ == (AnalyzerView { events: Seq::empty(), ..old(self)@ }),
    {
        let mut events: Vec<SimEvent> = Vec::new();
        std::mem::swap(&mut events, &mut self.events);
        assert(self@.events =~= Seq::<EventView>::empty());
        events
    }
}

/// Where the serving of one audio block stands.
#[derive(Debug, Clone, Copy, PartialEq, Eq, Structural)]
pub enum AdcPhase {
    /// Waiting for a stream.
    Waiting,
    /// The block's due time has come.
    Due,
    /// Waiting, up to the deadline, for the DAC frames of the block.
    Filling { deadline: u64 },
}

/// What to do next to serve an audio block.
#[derive(Debug, Clone, Copy, PartialEq, Eq, Structural)]
pub enum AdcAction {
    /// Wait until the stream changes.
    AwaitChange,
    /// Sleep until `samples` frames at `rate` Hz after `started`.
    SleepUntilDue { started: u64, samples: u64, rate: u32 },
    /// Wait until the stream changes, at most until `deadline`.
    AwaitChangeUntil { deadline: u64 },
    /// Take the block and send it.
    Emit,
}

impl AnalyzerView {
    /// The step while waiting for the DAC frames of a block: emit once they are
    /// all there or the deadline has passed, as a free-running ADC would; start
    /// over when the stream was stopped.
    pub open spec fn filling_step(self, n: nat, deadline: u64, now: u64) -> (AdcPhase, AdcAction) {
        match self.stream {
            Some(s) => if s.missing(n) == 0 || now >= deadline {
                (AdcPhase::Waiting, AdcAction::Emit)
            } else {
                (AdcPhase::Filling { deadline }, AdcAction::AwaitChangeUntil { deadline })
            },
            None => (AdcPhase::Waiting, AdcAction::AwaitChange),
        }
    }

    /// The deadline of a block that is due now.
    pub open spec fn fill_deadline(now: u64, realtime: bool) -> u64 {
        let grace = if realtime {
            REALTIME_GRACE_NS
        } else {
            FAST_GRACE_NS
        };
        if now + grace > u64::MAX {
            u64::MAX
        } else {
            (now + grace) as u64
        }
    }

    /// The next step of serving an audio block of `n` frames.
    pub open spec fn adc_step(
        self,
        phase: AdcPhase,
        n: nat,
        now: u64,
        realtime: bool,
    ) -> (AdcPhase, AdcAction) {
        match phase {
            AdcPhase::Waiting => match self.stream {
                Some(s) => if realtime {
                    (
                        AdcPhase::Due,
                        AdcAction::SleepUntilDue {
                            started: s.started,
                            samples: (s.emitted + n) as u64,
                            rate: rate_of(self.rate_idx),
                        },
                    )
                } else {
                    self.filling_step(n, Self::fill_deadline(now, realtime), now)
                },
                None => (AdcPhase::Waiting, AdcAction::AwaitChange),
            },
            AdcPhase::Due => self.filling_step(n, Self::fill_deadline(now, realtime), now),
            AdcPhase::Filling { deadline } => self.filling_step(n, deadline, now),
        }
    }

    /// Whether `n` more frames can be counted on the running stream.
    pub open spec fn counts(self, n: nat) -> bool {
        self.stream matches Some(s) ==> s.emitted + n <= u64::MAX
    }
}

/// The full-scale levels and trims an audio block is computed with.
#[derive(Debug, Clone, Copy)]
pub struct Levels {
    /// Full-scale output level in dBV.
    pub out_dbv: i16,
    /// Full-scale input level in dBV.
    pub in_dbv: i16,
    /// DAC trims (left, right) of the served page, in dB.
    pub dac_trim: (u32, u32),
    /// ADC trims (left, right) of the served page, in dB.
    pub adc_trim: (u32, u32),
    /// Sample rate in Hz.
    pub rate: u32,
}

impl AnalyzerView {
    /// The levels and trims of the selected ranges, from the served page.
    pub open spec fn levels(self) -> Levels {
        let (i, o) = (self.input_gain as int, self.output_gain as int);
        Levels {
            out_dbv: DAC_LEVELS_DBV[o],
            in_dbv: ADC_LEVELS_DBV[i],
            dac_trim: (dac_trim(self.cal_page, o, 0), dac_trim(self.cal_page, o, 1)),
            adc_trim: (adc_trim(self.cal_page, i, 0), adc_trim(self.cal_page, i, 1)),
            rate: rate_of(self.rate_idx),
        }
    }
}

impl Analyzer {
    /// The next step of serving an audio block of `n` frames. The host queues
    /// DAC writes together with ADC reads; on real hardware the sample-rate
    /// pacing guarantees that the loopback source has arrived by the time a
    /// block is produced. In real time the block is already due, so only a
    /// short jitter grace is allowed; the long deadline is for determinism
    /// without it.
    pub fn adc_step(&self, phase: AdcPhase, n: usize, now: u64, realtime: bool) -> (r: (
        AdcPhase,
        AdcAction,
    ))
        requires
            self@.counts(n as nat),
        ensures
            r == self@.adc_step(phase, n as nat, now, realtime),
    {
        let deadline: u64 = match phase {
            AdcPhase::Waiting => {
                match &self.stream {
                    Some(s) => if realtime {
                        return (
                            AdcPhase::Due,
                            AdcAction::SleepUntilDue {
                                started: s.started(),
                                samples: s.emitted() + n as u64,
                                rate: rate_hz(self.rate_idx),
                            },
                        );
                    },
                    None => {
                        return (AdcPhase::Waiting, AdcAction::AwaitChange);
                    },
                }
                now.saturating_add(FAST_GRACE_NS)
            },
            AdcPhase::Due => now.saturating_add(
                if realtime {
                    REALTIME_GRACE_NS
                } else {
                    FAST_GRACE_NS
                },
            ),
            AdcPhase::Filling { deadline } => deadline,
        };
        match &self.stream {
            Some(s) => if s.missing_frames(n) == 0 || now >= deadline {
                (AdcPhase::Waiting, AdcAction::Emit)
            } else {
                (AdcPhase::Filling { deadline }, AdcAction::AwaitChangeUntil { deadline })
            },
            None => (AdcPhase::Waiting, AdcAction::AwaitChange),
        }
    }

    /// Whether `n` more frames can be counted on the running stream.
    pub fn can_count(&self, n: usize) -> (b: bool)
        ensures
            b == self@.counts(n as nat),
    {
        match &self.stream {
            Some(s) => s.emitted() <= u64::MAX - n as u64,
            None => true,
        }
    }

    /// Takes what the next `n` frames of the running stream are made from;
    /// `None` without a stream.
    pub fn produce_adc_block(&mut self, n: usize) -> (b: Option<Block>)
        requires
            old(self).wf(),
            old(self)@.counts(n as nat),
        ensures
            final(self).wf(),
            final(self).id() == old(self).id(),
            match old(self)@.stream {
                Some(s) => {
                    &&& b matches Some(block)
                    &&& block.frames@ == s.loopback(n as nat)
                    &&& block.draws@ == noise_draws(s.rng, 4 * n as nat)
                    &&& final(self)@ == (AnalyzerView {
                        stream: Some(s.after_block(n as nat)),
                        ..old(self)@
                    })
                },
                None => b is None && final(self)@ == old(self)@,
            },
    {
        match &mut self.stream {
            Some(s) => {
                proof {
                    lemma_noise_state_nonzero(s@.rng, 4 * n as nat);
                }
                Some(s.take_block(n))
            },
            None => None,
        }
    }

    /// The generator phase of the running stream (bit pattern of the double).
    pub fn generator_phase(&self) -> (p: Option<u64>)
        ensures
            p == (match self@.stream {
                Some(s) => Some(s.phase),
                None => None,
            }),
    {
        match &self.stream {
            Some(s) => Some(s.phase()),
            None => None,
        }
    }

    /// Moves the generator phase of the running stream.
    pub fn set_generator_phase(&mut self, phase: u64)
        requires
            old(self).wf(),
        ensures
            final(self).wf(),
            final(self).id() == old(self).id(),
            final(self)@ == (AnalyzerView {
                stream: match old(self)@.stream {
                    Some(s) => Some(StreamView { phase, ..s }),
                    None => None,
                },
                ..old(self)@
            }),
    {
        match &mut self.stream {
            Some(s) => s.set_phase(phase),
            None => {},
        }
    }

    /// The levels and trims of the selected ranges, from the served page.
    pub fn levels(&self) -> (l: Levels)
        requires
            self.wf(),
        ensures
            l == self@.levels(),
    {
        let page = self.cal_page.as_slice();
        let (i, o): (usize, usize) = (self.input_gain as usize, self.output_gain as usize);
        Levels {
            out_dbv: DAC_LEVELS_DBV[o],
            in_dbv: ADC_LEVELS_DBV[i],
            dac_trim: (dac_trim_db(page, o, 0), dac_trim_db(page, o, 1)),
            adc_trim: (adc_trim_db(page, i, 0), adc_trim_db(page, i, 1)),
            rate: rate_hz(self.rate_idx),
        }
    }
}

/// A register that holds what the host writes, for any value.
pub open spec fn plain_register(r: u8) -> bool {
    ||| r == LINK_KEEPALIVE
    ||| r == UNKNOWN_INIT_0A
    ||| unmapped(r)
}

/// A register the bus gives no meaning to.
pub open spec fn unmapped(r: u8) -> bool {
    &&& r != LINK_KEEPALIVE
    &&& r != INPUT_GAIN
    &&& r != OUTPUT_GAIN
    &&& r != STREAM_CTRL
    &&& r != SAMPLE_RATE
    &&& r != UNKNOWN_INIT_0A
    &&& r != CAL_PAGE_SELECT
    &&& r != BOOTLOADER_ENTRY
    &&& !read_only(r)
}

/// A register that reads the same whatever the host writes to it.
pub open spec fn read_only(r: u8) -> bool {
    ||| r == FIRMWARE_VERSION
    ||| r == TELEM_USB_VOLTAGE
    ||| r == TELEM_USB_CURRENT
    ||| r == TELEM_ISO_CURRENT
    ||| r == TELEM_EXTRA
    ||| r == TELEM_TEMPERATURE
    ||| r == CALIBRATION
    ||| r == CAPABILITY
    ||| r == SERIAL_NUMBER
    ||| r == STREAM_STATUS
}

/// What a register write does to a later read: the keepalive echo, register
/// 0x0A and every unmapped register give the value back; gains keep their low
/// bits, the sample rate is clamped to what the model supports; read-only
/// registers are not affected.
pub proof fn lemma_write_read(a: AnalyzerView, r: u8, v: u32, m: Moment, later: Moment)
    ensures
        plain_register(r) ==> a.after_write(r, v, m).value(r, later) == v,
        a.after_write(INPUT_GAIN, v, m).value(INPUT_GAIN, later) == v % 8,
        a.after_write(OUTPUT_GAIN, v, m).value(OUTPUT_GAIN, later) == v % 4,
        a.after_write(SAMPLE_RATE, v, m).value(SAMPLE_RATE, later) == (if v
            <= a.model.top_rate() {
            v
        } else {
            a.model.top_rate()
        }),
        read_only(r) ==> a.after_write(r, v, m).value(r, later) == a.value(r, later),
{
}

/// A write leaves every other register alone, except that stream control also
/// sets the stream status, that the calibration pointer follows the page
/// select, and that the bootloader magic stops the stream.
pub proof fn lemma_write_elsewhere(
    a: AnalyzerView,
    r: u8,
    v: u32,
    other: u8,
    m: Moment,
    later: Moment,
)
    requires
        r != other,
        r == STREAM_CTRL ==> other != STREAM_STATUS,
        r == CAL_PAGE_SELECT ==> other != CALIBRATION,
        r == BOOTLOADER_ENTRY ==> other != STREAM_CTRL,
    ensures
        a.after_write(r, v, m).value(other, later) == a.value(other, later),
{
}

/// On the wire: with no reply outstanding, writing a plain register and then
/// reading it makes the next IN transfer return the four bytes that were
/// written, and leaves no reply behind.
pub proof fn lemma_bus_round_trip(
    a: AnalyzerView,
    write: Seq<u8>,
    read: Seq<u8>,
    m: Moment,
    later: Moment,
    len: usize,
)
    requires
        a.replies.len() == 0,
        write.len() == 5,
        read.len() == 5,
        write[0] < 0x80,
        plain_register(write[0]),
        read[0] == write[0] + 0x80,
        len >= 4,
    ensures
        ({
            let b = a.after_frame(write, m).after_frame(read, later);
            &&& b.in_step(EP_REGISTERS, len) == Ok::<InView, Stall>(
                InView::Data(write.subrange(1, 5)),
            )
            &&& b.after_in(EP_REGISTERS).replies.len() == 0
        }),
{
    let v = be32_at(write, 1);
    lemma_write_read(a, write[0], v, m, later);
    let b = a.after_frame(write, m).after_frame(read, later);
    assert(b.replies =~= seq![v]);
    lemma_be32_bytes(write, 1);
    assert(prefix(be32(v), len as int) =~= be32(v));
}

/// One register frame on the bus, and when it arrives.
pub struct BusFrame {
    pub bytes: Seq<u8>,
    pub at: Moment,
}

impl BusFrame {
    /// Whether the frame asks for a read.
    pub open spec fn reads(self) -> bool {
        self.bytes[0] >= 0x80
    }

    /// Whether the frame writes register `r`.
    pub open spec fn writes(self, r: u8) -> bool {
        !self.reads() && self.bytes[0] == r
    }

    /// The value a write carries.
    pub open spec fn value(self) -> u32 {
        be32_at(self.bytes, 1)
    }
}

/// The values written to register `r`, oldest first.
pub open spec fn values_written(frames: Seq<BusFrame>, r: u8) -> Seq<u32>
    decreases frames.len(),
{
    if frames.len() == 0 {
        Seq::empty()
    } else if frames.last().writes(r) {
        values_written(frames.drop_last(), r).push(frames.last().value())
    } else {
        values_written(frames.drop_last(), r)
    }
}

impl AnalyzerView {
    /// The state after a run of register frames.
    pub open spec fn after_bus(self, frames: Seq<BusFrame>) -> AnalyzerView
        decreases frames.len(),
    {
        if frames.len() == 0 {
            self
        } else {
            self.after_bus(frames.drop_last()).after_frame(frames.last().bytes, frames.last().at)
        }
    }

    /// The values that the reads among a run of register frames ask for, in the
    /// order of the reads.
    pub open spec fn asked(self, frames: Seq<BusFrame>) -> Seq<u32>
        decreases frames.len(),
    {
        if frames.len() == 0 {
            Seq::empty()
        } else {
            let before = self.asked(frames.drop_last());
            let last = frames.last();
            if last.reads() {
                before.push(
                    self.after_bus(frames.drop_last()).value(
                        (last.bytes[0] - 0x80) as u8,
                        last.at,
                    ),
                )
            } else {
                before
            }
        }
    }

    /// The state after `k` IN transfers on the register bus.
    pub open spec fn after_ins(self, k: nat) -> AnalyzerView
        decreases k,
    {
        if k == 0 {
            self
        } else {
            self.after_ins((k - 1) as nat).after_in(EP_REGISTERS)
        }
    }
}

/// The register frames of one OUT transfer.
pub open spec fn bus_frames(data: Seq<u8>, n: nat, m: Moment) -> Seq<BusFrame> {
    Seq::new(n, |i: int| BusFrame { bytes: data.subrange(5 * i, 5 * i + 5), at: m })
}

/// An OUT transfer on the register bus is the run of its frames.
pub proof fn lemma_transfer_is_frames(a: AnalyzerView, data: Seq<u8>, n: nat, m: Moment)
    ensures
        a.after_frames(data, n, m) == a.after_bus(bus_frames(data, n, m)),
    decreases n,
{
    if n > 0 {
        let j = (n - 1) as nat;
        lemma_transfer_is_frames(a, data, j, m);
        assert(bus_frames(data, n, m).drop_last() =~= bus_frames(data, j, m));
    }
}

/// The replies that a run of frames leaves queued.
proof fn lemma_replies_queued(a: AnalyzerView, frames: Seq<BusFrame>)
    ensures
        a.after_bus(frames).replies == a.replies + a.asked(frames),
    decreases frames.len(),
{
    if frames.len() > 0 {
        lemma_replies_queued(a, frames.drop_last());
    }
    assert(a.after_bus(frames).replies =~= a.replies + a.asked(frames));
}

/// The replies that are left after some IN transfers.
proof fn lemma_replies_left(a: AnalyzerView, k: nat)
    requires
        k <= a.replies.len(),
    ensures
        a.after_ins(k).replies == a.replies.skip(k as int),
    decreases k,
{
    if k > 0 {
        lemma_replies_left(a, (k - 1) as nat);
    }
    assert(a.after_ins(k).replies =~= a.replies.skip(k as int));
}

/// Replies come back in the order of the reads that asked for them, one for
/// each: after any run of register frames, the `k`-th IN transfer returns the
/// `k`-th of what was queued before and of what the reads asked for, and after
/// the last of them nothing is queued.
pub proof fn lemma_replies_in_order(a: AnalyzerView, frames: Seq<BusFrame>, k: nat, len: usize)
    requires
        k <= a.replies.len() + a.asked(frames).len(),
    ensures
        ({
            let b = a.after_bus(frames);
            let due = a.replies + a.asked(frames);
            b.after_ins(k).in_step(EP_REGISTERS, len) == Ok::<InView, Stall>(
                if k < due.len() {
                    InView::Data(prefix(be32(due[k as int]), len as int))
                } else {
                    InView::Pending
                },
            )
        }),
{
    lemma_replies_queued(a, frames);
    lemma_replies_left(a.after_bus(frames), k);
}

/// The last value written to a register, if any, through `keep`; `first` if
/// none was written.
pub open spec fn last_or(values: Seq<u32>, keep: spec_fn(u32) -> u32, first: u32) -> u32 {
    if values.len() > 0 {
        keep(values.last())
    } else {
        first
    }
}

/// What a run of frames leaves of gains and rate.
proof fn lemma_settings_after(a: AnalyzerView, frames: Seq<BusFrame>)
    ensures
        ({
            let b = a.after_bus(frames);
            let top = a.model.top_rate();
            &&& b.model == a.model
            &&& b.input_gain == last_or(
                values_written(frames, INPUT_GAIN),
                |v: u32| v % 8,
                a.input_gain,
            )
            &&& b.output_gain == last_or(
                values_written(frames, OUTPUT_GAIN),
                |v: u32| v % 4,
                a.output_gain,
            )
            &&& b.rate_idx == last_or(
                values_written(frames, SAMPLE_RATE),
                |v: u32|
                    if v <= top {
                        v
                    } else {
                        top
                    },
                a.rate_idx,
            )
        }),
    decreases frames.len(),
{
    if frames.len() > 0 {
        lemma_settings_after(a, frames.drop_last());
    }
}

/// After any run of register frames, reads and writes, on a unit that was just
/// powered on, each gain is the last value written to it, reduced to its range
/// (the boot value if none was written), and the rate index is the last one
/// written, clamped to the model's maximum. So every level and trim lookup
/// stays in its table.
pub proof fn lemma_settings_follow_writes(
    opts: SimOptions,
    fw_version: u32,
    factory: Seq<u8>,
    frames: Seq<BusFrame>,
)
    ensures
        ({
            let b = powered_on(opts, fw_version, factory).after_bus(frames);
            let top = opts.model.top_rate();
            &&& b.input_gain == last_or(values_written(frames, INPUT_GAIN), |v: u32| v % 8, 7)
            &&& b.output_gain == last_or(values_written(frames, OUTPUT_GAIN), |v: u32| v % 4, 0)
            &&& b.rate_idx == last_or(
                values_written(frames, SAMPLE_RATE),
                |v: u32|
                    if v <= top {
                        v
                    } else {
                        top
                    },
                0,
            )
            &&& b.input_gain < ADC_LEVELS_DBV@.len()
            &&& b.output_gain < DAC_LEVELS_DBV@.len()
            &&& b.rate_idx <= top
        }),
{
    lemma_settings_after(powered_on(opts, fw_version, factory), frames);
}

/// The stream status reads 0x40 for half a second after a stop and zero from
/// then on.
pub proof fn lemma_stop_status(a: AnalyzerView, m: Moment, later: Moment)
    requires
        m.now <= later.now,
    ensures
        a.after_write(STREAM_CTRL, STREAM_STOP, m).value(STREAM_STATUS, later) == (if later.now
            - m.now < STOP_MEMORY_NS {
            STATUS_STOPPED
        } else {
            0
        }),
        a.after_write(STREAM_CTRL, STREAM_STOP, m).stream is None,
{
}

/// Whether the second magic directly follows the first at position `i` of the
/// values written to the bootloader register.
pub open spec fn pair_at(values: Seq<u32>, i: int) -> bool {
    &&& 1 <= i < values.len()
    &&& values[i - 1] == BOOTLOADER_MAGIC_1
    &&& values[i] == BOOTLOADER_MAGIC_2
}

/// Whether the second magic directly follows the first anywhere.
pub open spec fn has_pair(values: Seq<u32>) -> bool {
    exists|i: int| pair_at(values, i)
}

/// One more value brings a pair if there was one, or if it completes one.
proof fn lemma_pair_push(values: Seq<u32>, v: u32)
    ensures
        has_pair(values.push(v)) == (has_pair(values) || (values.len() > 0 && values.last()
            == BOOTLOADER_MAGIC_1 && v == BOOTLOADER_MAGIC_2)),
{
    let more = values.push(v);
    if has_pair(values) {
        let i = choose|i: int| pair_at(values, i);
        assert(pair_at(more, i));
    }
    if values.len() > 0 && values.last() == BOOTLOADER_MAGIC_1 && v == BOOTLOADER_MAGIC_2 {
        assert(pair_at(more, values.len() as int));
    }
    if has_pair(more) {
        let i = choose|i: int| pair_at(more, i);
        if i < values.len() {
            assert(pair_at(values, i));
        }
    }
}

impl AnalyzerView {
    /// The values that count for the unlock after a run of register frames:
    /// the first magic if it was the last value before them, then those written
    /// among them.
    pub open spec fn unlock_values(self, frames: Seq<BusFrame>) -> Seq<u32> {
        let before = if self.boot_stage == 1 {
            seq![BOOTLOADER_MAGIC_1]
        } else {
            Seq::empty()
        };
        before + values_written(frames, BOOTLOADER_ENTRY)
    }
}

/// The bootloader is entered exactly once, at the first place where the two
/// magics are written to register 0x0F directly after one another, in this
/// order, and never without one. This holds over any run of register frames;
/// what lies on other registers in between does not matter.
pub proof fn lemma_bootloader_unlock(a: AnalyzerView, frames: Seq<BusFrame>)
    requires
        a.boot_stage <= 1,
    ensures
        ({
            let b = a.after_bus(frames);
            let values = a.unlock_values(frames);
            &&& b.rebooting == (a.rebooting || has_pair(values))
            &&& b.events == (if !a.rebooting && has_pair(values) {
                a.events.push(EventView::EnterBootloader)
            } else {
                a.events
            })
            &&& b.boot_stage <= 1
            &&& b.boot_stage == 1 <==> values.len() > 0 && values.last() == BOOTLOADER_MAGIC_1
        }),
    decreases frames.len(),
{
    let values = a.unlock_values(frames);
    if frames.len() > 0 {
        let init = frames.drop_last();
        lemma_bootloader_unlock(a, init);
        if frames.last().writes(BOOTLOADER_ENTRY) {
            lemma_pair_push(a.unlock_values(init), frames.last().value());
            assert(values =~= a.unlock_values(init).push(frames.last().value()));
        }
    } else {
        assert(values.len() <= 1);
        assert(!has_pair(values));
    }
}

/// The frame that sends the bootloader entry is the one that completes the
/// first pair of magics, and the stream is gone after it.
pub proof fn lemma_bootloader_entry_frame(a: AnalyzerView, frames: Seq<BusFrame>, next: BusFrame)
    requires
        a.boot_stage <= 1,
    ensures
        ({
            let before = a.after_bus(frames);
            let after = a.after_bus(frames.push(next));
            let values = a.unlock_values(frames);
            let completes = next.writes(BOOTLOADER_ENTRY) && values.len() > 0 && values.last()
                == BOOTLOADER_MAGIC_1 && next.value() == BOOTLOADER_MAGIC_2;
            &&& (after.events != before.events) == (completes && !a.rebooting && !has_pair(values))
            &&& completes ==> after.stream is None
        }),
{
    assert(frames.push(next).drop_last() =~= frames);
    lemma_bootloader_unlock(a, frames);
    lemma_bootloader_unlock(a, frames.push(next));
    if next.writes(BOOTLOADER_ENTRY) {
        lemma_pair_push(a.unlock_values(frames), next.value());
        assert(a.unlock_values(frames.push(next)) =~= a.unlock_values(frames).push(next.value()));
    }
    let pushed = a.events.push(EventView::EnterBootloader);
    assert(pushed.len() != a.events.len());
}

impl AnalyzerView {
    /// The state after a run of register reads.
    pub open spec fn after_reads(self, reads: Seq<(u8, Moment)>) -> AnalyzerView
        decreases reads.len(),
    {
        if reads.len() == 0 {
            self
        } else {
            self.after_reads(reads.drop_last()).after_read(reads.last().0)
        }
    }

    /// The calibration words among a run of register reads, in order.
    pub open spec fn calibration_words(self, reads: Seq<(u8, Moment)>) -> Seq<u32>
        decreases reads.len(),
    {
        if reads.len() == 0 {
            Seq::empty()
        } else {
            let before = self.calibration_words(reads.drop_last());
            let (r, m) = reads.last();
            if r == CALIBRATION {
                before.push(self.after_reads(reads.drop_last()).value(r, m))
            } else {
                before
            }
        }
    }
}

/// The bytes a host makes of calibration words, re-emitting each little-endian.
pub open spec fn words_bytes(words: Seq<u32>) -> Seq<u8>
    decreases words.len(),
{
    if words.len() == 0 {
        Seq::empty()
    } else {
        words_bytes(words.drop_last()) + le32(words.last())
    }
}

/// Where a run of reads leaves the calibration pointer, and what it has read.
proof fn lemma_readout(a: AnalyzerView, reads: Seq<(u8, Moment)>)
    requires
        a.wf(),
        a.cal_ptr == 0,
    ensures
        ({
            let words = a.calibration_words(reads);
            &&& a.after_reads(reads) == (AnalyzerView {
                cal_ptr: 4 * (words.len() as int % 128),
                ..a
            })
            &&& forall|j: int|
                0 <= j < words.len() ==> #[trigger] words[j] == le32_at(a.cal_page, 4 * (j % 128))
        }),
    decreases reads.len(),
{
    if reads.len() > 0 {
        lemma_readout(a, reads.drop_last());
    }
}

/// The bytes of the first words of a readout.
proof fn lemma_words_bytes(page: Seq<u8>, words: Seq<u32>)
    requires
        page.len() == 512,
        words.len() <= 128,
        forall|j: int| 0 <= j < words.len() ==> #[trigger] words[j] == le32_at(page, 4 * j),
    ensures
        words_bytes(words) == page.take(4 * words.len() as int),
    decreases words.len(),
{
    if words.len() > 0 {
        let k = words.len() - 1;
        let init = words.drop_last();
        assert forall|j: int| 0 <= j < init.len() implies #[trigger] init[j] == le32_at(
            page,
            4 * j,
        ) by {
            assert(init[j] == words[j]);
        }
        lemma_words_bytes(page, init);
        assert(words[k] == le32_at(page, 4 * k));
        lemma_le32_bytes(page, 4 * k);
    }
    assert(words_bytes(words) =~= page.take(4 * words.len() as int));
}

/// Selecting the calibration page and then reading the calibration register
/// 128 times reproduces the served page byte for byte, wherever the pointer
/// stood and whatever other registers are read in between; from the 129th read
/// on the words repeat. Reading any other register changes nothing.
pub proof fn lemma_calibration_readout(
    a: AnalyzerView,
    v: u32,
    m: Moment,
    reads: Seq<(u8, Moment)>,
    r: u8,
)
    requires
        a.wf(),
    ensures
        ({
            let words = a.after_write(CAL_PAGE_SELECT, v, m).calibration_words(reads);
            &&& words.len() >= 128 ==> words_bytes(words.take(128)) == a.cal_page
            &&& forall|j: int|
                0 <= j < words.len() - 128 ==> words[j + 128] == #[trigger] words[j]
        }),
        r != CALIBRATION ==> a.after_read(r) == a,
{
    let b = a.after_write(CAL_PAGE_SELECT, v, m);
    lemma_readout(b, reads);
    let words = b.calibration_words(reads);
    if words.len() >= 128 {
        let first = words.take(128);
        assert forall|j: int| 0 <= j < 128 implies #[trigger] first[j] == le32_at(
            a.cal_page,
            4 * j,
        ) by {
            assert(first[j] == words[j]);
        }
        lemma_words_bytes(a.cal_page, first);
        assert(a.cal_page.take(512) =~= a.cal_page);
    }
    assert forall|j: int| 0 <= j < words.len() - 128 implies words[j + 128]
        == #[trigger] words[j] by {
        assert((j + 128) % 128 == j % 128);
        assert(words[j + 128] == le32_at(a.cal_page, 4 * ((j + 128) % 128)));
    }
}

/// Everything the samples of a block are computed from.
pub struct BlockSource {
    pub frames: Seq<Frame>,
    pub draws: Seq<u64>,
    pub levels: Levels,
    pub phase: u64,
}

impl AnalyzerView {
    /// What the next `n` frames of the running stream are computed from.
    pub open spec fn block_source(self, n: nat) -> BlockSource {
        BlockSource {
            frames: self.stream->0.loopback(n),
            draws: noise_draws(self.stream->0.rng, 4 * n),
            levels: self.levels(),
            phase: self.stream->0.phase,
        }
    }

    /// The state after an acquisition: a stream is started, a block of `n`
    /// frames taken, the generator left at `phase` and the stream stopped.
    pub open spec fn after_acquisition(
        self,
        n: nat,
        phase: u64,
        start: Moment,
        stop: Moment,
    ) -> AnalyzerView {
        let running = self.after_write(STREAM_CTRL, STREAM_START, start);
        let s = running.stream->0.after_block(n);
        let taken = AnalyzerView { stream: Some(StreamView { phase, ..s }), ..running };
        taken.after_write(STREAM_CTRL, STREAM_STOP, stop)
    }
}

/// With a configured noise seed every stream start replays the same block: the
/// loopback frames and noise of an acquisition do not depend on when it starts
/// or on what ran before.
pub proof fn lemma_seeded_streams_replay(
    a: AnalyzerView,
    b: AnalyzerView,
    m1: Moment,
    m2: Moment,
    n: nat,
)
    requires
        a.noise_seed is Some,
        a.noise_seed == b.noise_seed,
        a.latency == b.latency,
        a.stream is None,
        b.stream is None,
    ensures
        ({
            let s = a.after_write(STREAM_CTRL, STREAM_START, m1).stream->0;
            let t = b.after_write(STREAM_CTRL, STREAM_START, m2).stream->0;
            &&& noise_draws(s.rng, 4 * n) == noise_draws(t.rng, 4 * n)
            &&& s.loopback(n) == t.loopback(n)
        }),
{
}

/// Two acquisitions in a row with a configured noise seed are computed from the
/// same frames, noise, levels and generator phase, so whatever function of
/// these the samples are, they are the same bytes.
pub proof fn lemma_acquisitions_replay(
    a: AnalyzerView,
    n: nat,
    phase: u64,
    m1: Moment,
    stop: Moment,
    m2: Moment,
    samples: spec_fn(BlockSource) -> Seq<u8>,
)
    requires
        a.noise_seed is Some,
        a.stream is None,
    ensures
        ({
            let first = a.after_write(STREAM_CTRL, STREAM_START, m1);
            let again = a.after_acquisition(n, phase, m1, stop).after_write(
                STREAM_CTRL,
                STREAM_START,
                m2,
            );
            &&& first.stream is Some && again.stream is Some
            &&& again.block_source(n) == first.block_source(n)
            &&& samples(again.block_source(n)) == samples(first.block_source(n))
        }),
{
    let idle = a.after_acquisition(n, phase, m1, stop);
    lemma_seeded_streams_replay(a, idle, m1, m2, n);
}

/// Without a configured seed, two streams have different noise in every first
/// block, whatever ran before, unless their fresh seeds start the same noise
/// sequence: only equal seeds do, and one pair of seeds besides.
pub proof fn lemma_unseeded_streams_differ(
    a: AnalyzerView,
    b: AnalyzerView,
    m1: Moment,
    m2: Moment,
    n: nat,
)
    requires
        a.noise_seed is None,
        b.noise_seed is None,
        a.stream is None,
        b.stream is None,
        n > 0,
    ensures
        ({
            let s = a.after_write(STREAM_CTRL, STREAM_START, m1).stream->0;
            let t = b.after_write(STREAM_CTRL, STREAM_START, m2).stream->0;
            (noise_draws(s.rng, 4 * n) == noise_draws(t.rng, 4 * n)) == same_start(
                m1.seed,
                m2.seed,
            )
        }),
{
    lemma_seeds_start_apart(m1.seed, m2.seed);
    lemma_noise_states_differ(noise_start(m1.seed), noise_start(m2.seed), n);
}

} // verus!

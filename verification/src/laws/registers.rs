//! The register bus of the analyzer.

use crate::analyzer::{rate_hz, Analyzer, AnalyzerView};
use crate::backend::{InStep, Moment, Stall, UsbBackend};
use crate::options::{Model, SimOptions};
use crate::sim::EventView;
use vstd::prelude::*;

verus! {

/// What a read returns, for every register: live readings, settings, constants
/// of the unit, and what the host stored elsewhere. Only the calibration
/// readout moves on.
pub proof fn law_read(a: &mut Analyzer, r: u8, m: &Moment, v: u32)
    requires
        call_ensures(Analyzer::read_value, (a, r, m), v),
        old(a)@.cal_page.len() == 512,
        0 <= old(a)@.cal_ptr <= 508,
    ensures
        ({
            let o = old(a)@;
            let (page, p) = (o.cal_page, o.cal_ptr);
            &&& r == 0x00 ==> v == o.echo
            &&& r == 0x05 ==> v == o.input_gain
            &&& r == 0x06 ==> v == o.output_gain
            &&& r == 0x08 ==> v == (if o.stream is Some { 5int } else { 0 })
            &&& r == 0x09 ==> v == o.rate_idx
            &&& r == 0x0A ==> v == o.reg0a
            &&& r == 0x10 ==> v == o.fw_version
            &&& r == 0x11 ==> v == m.telemetry.usb_voltage
            &&& r == 0x12 ==> v == m.telemetry.usb_current
            &&& r == 0x13 ==> v == m.telemetry.iso_current
            &&& r == 0x15 ==> v == 0
            &&& r == 0x16 ==> v == m.telemetry.temperature
            &&& r == 0x19 ==> v == page[p] + 256 * page[p + 1] + 65536 * page[p + 2] + 16777216
                * page[p + 3]
            &&& r == 0x1B ==> v == 0x4000_0040
            &&& r == 0x1D ==> v == o.serial
            &&& r == 0x1E ==> v == (if o.last_stop is Some && m.now < o.last_stop->0
                + 500_000_000 { 0x40int } else { 0 })
            &&& stored(r) || r == 0x0D || r == 0x0F ==> v == (if o.misc.contains_key(r) {
                o.misc[r]
            } else {
                0
            })
        }),
        r != 0x19 ==> final(a)@ == old(a)@,
        r == 0x19 ==> final(a)@ == (AnalyzerView {
            cal_ptr: if old(a)@.cal_ptr + 4 == 512 {
                0
            } else {
                old(a)@.cal_ptr + 4
            },
            ..old(a)@
        }),
{
}

/// A register that the bus stores and gives no meaning to.
pub open spec fn stored(r: u8) -> bool {
    &&& 1 <= r
    &&& r != 5 && r != 6 && r != 8 && r != 9 && r != 10 && r != 13 && r != 15 && r != 16 && r != 17
    &&& r != 18 && r != 19 && r != 21 && r != 22 && r != 25 && r != 27 && r != 29 && r != 30
}

/// What a write is good for: a later read of the register gives it back, the
/// gains modulo their number of ranges, the rate as far as the model goes, the
/// stream control as running or not; constants and readings are not touched.
pub proof fn law_write_then_read(
    a: &mut Analyzer,
    r: u8,
    v: u32,
    m: &Moment,
    b: &mut Analyzer,
    later: &Moment,
    out: u32,
)
    requires
        call_ensures(Analyzer::write_value, (a, r, v, m), ()),
        call_ensures(Analyzer::read_value, (b, r, later), out),
        *old(b) == *final(a),
    ensures
        r == 0x00 || r == 0x0A || stored(r) ==> out == v,
        r == 0x05 ==> out < 8 && (v - out) % 8 == 0,
        r == 0x06 ==> out < 4 && (v - out) % 4 == 0,
        r == 0x08 && v == 5 ==> out == 5,
        r == 0x08 && v == 0 ==> out == 0,
        r == 0x08 && v != 5 && v != 0 ==> final(a)@ == old(a)@,
        r == 0x09 && v <= 2 ==> out == v,
        r == 0x09 && v == 3 ==> out == (if old(a)@.model == Model::Qa403 { 3int } else { 2 }),
        r == 0x09 && v > 3 ==> out == (if old(a)@.model == Model::Qa403 { 3int } else { 2 }),
        r == 0x10 ==> out == old(a)@.fw_version,
        r == 0x11 ==> out == later.telemetry.usb_voltage,
        r == 0x12 ==> out == later.telemetry.usb_current,
        r == 0x13 ==> out == later.telemetry.iso_current,
        r == 0x15 ==> out == 0,
        r == 0x16 ==> out == later.telemetry.temperature,
        r == 0x1B ==> out == 0x4000_0040,
        r == 0x1D ==> out == old(a)@.serial,
{
}

/// What a write leaves alone: everything but the one thing it sets.
pub proof fn law_write_frame(a: &mut Analyzer, r: u8, v: u32, m: &Moment)
    requires
        call_ensures(Analyzer::write_value, (a, r, v, m), ()),
    ensures
        ({
            let (o, n) = (old(a)@, final(a)@);
            &&& n.model == o.model && n.serial == o.serial && n.fw_version == o.fw_version
            &&& n.noise_seed == o.noise_seed && n.latency == o.latency && n.cal_page == o.cal_page
            &&& n.replies == o.replies
            &&& r != 0x00 ==> n.echo == o.echo
            &&& r != 0x05 ==> n.input_gain == o.input_gain
            &&& r != 0x06 ==> n.output_gain == o.output_gain
            &&& r != 0x09 ==> n.rate_idx == o.rate_idx
            &&& r != 0x0A ==> n.reg0a == o.reg0a
            &&& r != 0x0D ==> n.cal_ptr == o.cal_ptr
            &&& r == 0x0D ==> n.cal_ptr == 0
            &&& r != 0x08 ==> n.last_stop == o.last_stop
            &&& r != 0x08 && r != 0x0F ==> n.stream == o.stream
            &&& r != 0x0F ==> n.boot_stage == o.boot_stage && n.rebooting == o.rebooting
                && n.events == o.events
            &&& r == 0x0D || r == 0x0F ==> n.misc == o.misc
            &&& forall|k: u8| k != r ==> n.misc.contains_key(k) == o.misc.contains_key(k)
                && n.misc[k] == #[trigger] o.misc[k]
        }),
{
}

/// Stream control: 5 starts a stream where none runs, with the configured seed
/// or a fresh one and the configured latency ahead; 0 stops it and remembers
/// when; a stop is seen in the status register for half a second.
pub proof fn law_stream_control(
    a: &mut Analyzer,
    v: u32,
    m: &Moment,
    b: &mut Analyzer,
    later: &Moment,
    status: u32,
)
    requires
        call_ensures(Analyzer::write_value, (a, 8u8, v, m), ()),
        call_ensures(Analyzer::read_value, (b, 0x1Eu8, later), status),
        *old(b) == *final(a),
    ensures
        v == 5 && old(a)@.stream is None ==> {
            &&& final(a)@.stream matches Some(s)
            &&& s.started == m.now && s.emitted == 0 && s.dac.len() == 0 && s.phase == 0
            &&& s.delay == old(a)@.latency
            &&& !s.overflowed
        },
        v == 5 && old(a)@.stream is Some ==> final(a)@.stream == old(a)@.stream,
        v == 5 ==> final(a)@.last_stop == old(a)@.last_stop,
        v == 0 ==> final(a)@.stream is None,
        v == 0 && m.now <= later.now < m.now + 500_000_000 ==> status == 0x40,
        v == 0 && later.now >= m.now + 500_000_000 ==> status == 0,
{
}

/// The unlock: 0xDEADBEEF arms it, 0xCAFEBABE right after it on register 0x0F
/// reboots into the bootloader, once; anything else disarms it.
pub proof fn law_unlock(
    a: &mut Analyzer,
    v1: u32,
    m1: &Moment,
    b: &mut Analyzer,
    v2: u32,
    m2: &Moment,
)
    requires
        call_ensures(Analyzer::write_value, (a, 0x0Fu8, v1, m1), ()),
        call_ensures(Analyzer::write_value, (b, 0x0Fu8, v2, m2), ()),
        *old(b) == *final(a),
    ensures
        ({
            let n = final(b)@;
            let completes = v1 == 0xDEAD_BEEF && v2 == 0xCAFE_BABE;
            &&& completes ==> n.rebooting && n.stream is None
            &&& completes && !old(b)@.rebooting ==> n.events == old(b)@.events.push(
                EventView::EnterBootloader,
            )
            &&& completes && old(b)@.rebooting ==> n.events == old(b)@.events
            &&& !completes ==> n.events == old(b)@.events && n.rebooting == old(b)@.rebooting
                && n.stream == old(b)@.stream
            &&& n.boot_stage == (if v2 == 0xDEAD_BEEF { 1int } else { 0 })
        }),
{
}

/// A register frame is five bytes: below 0x80 the first byte is the register
/// to write and the others its value, high byte first; from 0x80 on it asks
/// for a read, whose value joins the replies.
pub proof fn law_frame(
    a: &mut Analyzer,
    frame: &[u8],
    m: &Moment,
    w: &mut Analyzer,
    v: u32,
    d: &mut Analyzer,
    r: u8,
    out: u32,
)
    requires
        frame@.len() == 5,
        call_ensures(Analyzer::handle_frame, (a, frame, m), ()),
        call_ensures(Analyzer::write_value, (w, frame@[0], v, m), ()),
        call_ensures(Analyzer::read_value, (d, r, m), out),
        *old(w) == *old(a),
        *old(d) == *old(a),
        v == 16777216 * frame@[1] + 65536 * frame@[2] + 256 * frame@[3] + frame@[4],
        frame@[0] >= 128 ==> r == frame@[0] - 128,
    ensures
        frame@[0] < 128 ==> final(a)@ == final(w)@,
        frame@[0] >= 128 ==> final(a)@ == (AnalyzerView {
            replies: old(a)@.replies.push(out),
            ..final(d)@
        }),
{
}

/// A register transfer is its frames: a transfer of whole frames followed by
/// another one is the transfer of both, one frame is a frame, and a trailing
/// part of a frame does nothing. Endpoint 1 is the register bus, 2 the audio;
/// other endpoints refuse.
pub proof fn law_out_transfer(
    a: &mut Analyzer,
    ep: u8,
    data: &[u8],
    m: &Moment,
    r: Result<usize, Stall>,
    f: &mut Analyzer,
    frame: &[u8],
    d: &mut Analyzer,
)
    requires
        call_ensures(<Analyzer as UsbBackend>::out_transfer, (a, ep, data, m), r),
        call_ensures(Analyzer::handle_frame, (f, frame, m), ()),
        call_ensures(Analyzer::handle_dac_block, (d, data), ()),
        *old(f) == *old(a),
        *old(d) == *old(a),
        data@.len() >= 5 ==> frame@ == data@.take(5),
    ensures
        ep == 0x01 || ep == 0x02 || ep == 0x81 || ep == 0x82 ==> r == Ok::<usize, Stall>(
            data@.len() as usize,
        ),
        ep != 0x01 && ep != 0x02 && ep != 0x81 && ep != 0x82 ==> r == Err::<usize, Stall>(Stall)
            && final(a)@ == old(a)@,
        (ep == 0x01 || ep == 0x81) && data@.len() < 5 ==> final(a)@ == old(a)@,
        (ep == 0x01 || ep == 0x81) && 5 <= data@.len() < 10 ==> final(a)@ == final(f)@,
        ep == 0x02 || ep == 0x82 ==> final(a)@ == final(d)@,
{
    let o = old(a)@;
    assert(o.after_frames(data@, 0, *m) == o);
    if 5 <= data@.len() < 10 {
        assert(data@.subrange(0, 5) =~= frame@);
        assert(o.after_frames(data@, 1, *m) == o.after_frame(frame@, *m));
    }
}

/// Frames of one transfer, as far as another transfer holds the same bytes.
proof fn lemma_frames_prefix(o: AnalyzerView, x: Seq<u8>, y: Seq<u8>, n: nat, m: Moment)
    requires
        5 * n <= x.len(),
    ensures
        o.after_frames(x + y, n, m) == o.after_frames(x, n, m),
    decreases n,
{
    if n > 0 {
        lemma_frames_prefix(o, x, y, (n - 1) as nat, m);
        assert((x + y).subrange(5 * (n - 1), 5 * n as int) =~= x.subrange(
            5 * (n - 1),
            5 * n as int,
        ));
    }
}

/// The frames behind whole frames.
proof fn lemma_frames_suffix(o: AnalyzerView, x: Seq<u8>, y: Seq<u8>, k: nat, n: nat, m: Moment)
    requires
        x.len() == 5 * k,
        5 * n <= y.len(),
    ensures
        o.after_frames(x + y, k + n, m) == o.after_frames(x, k, m).after_frames(y, n, m),
    decreases n,
{
    if n == 0 {
        lemma_frames_prefix(o, x, y, k, m);
    } else {
        lemma_frames_suffix(o, x, y, k, (n - 1) as nat, m);
        assert((x + y).subrange(5 * (k + n - 1), 5 * (k + n) as int) =~= y.subrange(
            5 * (n - 1),
            5 * n as int,
        ));
    }
}

/// Sending whole frames and then more is sending all of it at once.
pub proof fn law_register_transfers_join(
    a: &mut Analyzer,
    ep: u8,
    x: &[u8],
    m: &Moment,
    b: &mut Analyzer,
    y: &[u8],
    c: &mut Analyzer,
    xy: &[u8],
    rx: Result<usize, Stall>,
    ry: Result<usize, Stall>,
    rxy: Result<usize, Stall>,
)
    requires
        ep == 0x01 || ep == 0x81,
        x@.len() % 5 == 0,
        xy@ == x@ + y@,
        call_ensures(<Analyzer as UsbBackend>::out_transfer, (a, ep, x, m), rx),
        call_ensures(<Analyzer as UsbBackend>::out_transfer, (b, ep, y, m), ry),
        call_ensures(<Analyzer as UsbBackend>::out_transfer, (c, ep, xy, m), rxy),
        *old(b) == *final(a),
        *old(c) == *old(a),
    ensures
        final(c)@ == final(b)@,
{
    let k = x@.len() / 5;
    let n = y@.len() / 5;
    assert(x@.len() == 5 * k);
    assert((x@ + y@).len() / 5 == k + n);
    lemma_frames_suffix(old(a)@, x@, y@, k, n, *m);
}

/// A reply on endpoint 1 is the oldest queued value, high byte first, cut to
/// the length that was asked for; without one the transfer waits.
pub proof fn law_register_reply(
    a: &mut Analyzer,
    ep: u8,
    len: usize,
    r: Result<InStep, Stall>,
)
    requires
        call_ensures(<Analyzer as UsbBackend>::in_transfer, (a, ep, len), r),
    ensures
        ep == 0x01 || ep == 0x81 ==> {
            let (before, after) = (old(a)@.replies, final(a)@.replies);
            if before.len() == 0 {
                r matches Ok(InStep::Pending) && after == before
            } else {
                &&& r matches Ok(InStep::Data(d))
                &&& d@.len() == (if len < 4 { len as int } else { 4 })
                &&& d@.len() > 0 ==> d@[0] == before[0] / 16777216
                &&& d@.len() > 1 ==> d@[1] == before[0] / 65536 % 256
                &&& d@.len() > 2 ==> d@[2] == before[0] / 256 % 256
                &&& d@.len() > 3 ==> d@[3] == before[0] % 256
                &&& after == before.skip(1)
            }
        },
        ep == 0x02 || ep == 0x82 ==> final(a)@ == old(a)@ && (if len < 8 {
            r matches Ok(InStep::Data(d)) && d@.len() == 0
        } else {
            r matches Ok(InStep::Audio(n)) && 8 * n <= len < 8 * n + 8
        }),
        ep != 0x01 && ep != 0x02 && ep != 0x81 && ep != 0x82 ==> r is Err && final(a)@ == old(a)@,
        final(a)@ == (AnalyzerView { replies: final(a)@.replies, ..old(a)@ }),
{
}

/// A unit powers on with full headroom, the lowest output range and 48 kHz,
/// serves the custom page or else the factory page from its start, and has
/// nothing running, stored or queued.
pub proof fn law_power_on(
    opts: &SimOptions,
    fw: u32,
    factory: &[u8; 512],
    a: Analyzer,
    serial: u32,
)
    requires
        call_ensures(Analyzer::new, (opts, fw, factory), a),
        call_ensures(SimOptions::serial_u32, (opts,), serial),
    ensures
        a@.model == opts.model,
        a@.serial == serial,
        a@.fw_version == fw,
        a@.noise_seed == opts.noise_seed,
        a@.latency == opts.latency_samples,
        a@.input_gain == 7,
        a@.output_gain == 0,
        a@.rate_idx == 0,
        a@.echo == 0,
        a@.reg0a == 0,
        forall|k: u8| !a@.misc.contains_key(k),
        opts.cal_page matches Some(p) ==> a@.cal_page == p@,
        opts.cal_page is None ==> a@.cal_page == factory@,
        a@.cal_ptr == 0,
        a@.boot_stage == 0,
        a@.last_stop is None,
        a@.replies.len() == 0,
        a@.stream is None,
        !a@.rebooting,
        a@.events.len() == 0,
{
}

/// Rate indices double from 48 kHz.
pub proof fn law_rates(idx: u32, hz: u32)
    requires
        call_ensures(rate_hz, (idx,), hz),
    ensures
        idx == 0 ==> hz == 48_000,
        idx == 1 ==> hz == 2 * 48_000,
        idx == 2 ==> hz == 4 * 48_000,
        idx >= 3 ==> hz == 8 * 48_000,
{
}

} // verus!

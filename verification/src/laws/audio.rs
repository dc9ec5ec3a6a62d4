//! Loopback streaming, pacing and noise.

use crate::analyzer::{AdcAction, AdcPhase, Analyzer, AnalyzerView, Levels};
use crate::backend::{Moment, Stall, UsbBackend};
use crate::rng::{entropy_seed, noise_draw, splitmix64, unit_draw, xorshift64};
use crate::stream::{encode_block, Block, Frame, Stream, StreamView};
use vstd::prelude::*;

verus! {

/// The sample rate of a rate index, in Hz.
pub open spec fn hertz(idx: u32) -> int {
    if idx == 0 {
        48_000
    } else if idx == 1 {
        96_000
    } else if idx == 2 {
        192_000
    } else {
        384_000
    }
}

/// Whether four bytes are a sample, low byte first, in two's complement.
pub open spec fn sample_at(data: Seq<u8>, i: int, v: i32) -> bool {
    (data[i] + 256 * data[i + 1] + 65536 * data[i + 2] + 16777216 * data[i + 3] - v) % 0x1_0000_0000
        == 0
}

/// The room of the DAC queue is ten seconds of audio. A transfer that leaves no
/// more than that queued drops nothing: its frames stand behind those that
/// waited, the right sample first on the wire. Beyond that the newest ten
/// seconds are kept. Without a stream the data is dropped.
pub proof fn law_dac_queue(
    a: &mut Analyzer,
    data: &[u8],
    m: &Moment,
    r: Result<usize, Stall>,
    i: int,
)
    requires
        call_ensures(<Analyzer as UsbBackend>::out_transfer, (a, 0x02u8, data, m), r),
    ensures
        r == Ok::<usize, Stall>(data@.len() as usize),
        old(a)@.stream is None ==> final(a)@ == old(a)@,
        old(a)@.stream matches Some(s) ==> {
            &&& final(a)@.stream matches Some(t)
            &&& final(a)@ == (AnalyzerView { stream: Some(t), ..old(a)@ })
            &&& t == (StreamView { dac: t.dac, overflowed: t.overflowed, ..s })
            &&& {
                let (before, arrived) = (s.dac.len() as int, data@.len() as int / 8);
                let room = 10 * hertz(old(a)@.rate_idx);
                let dropped = if before + arrived > room { before + arrived - room } else { 0 };
                &&& t.dac.len() == before + arrived - dropped
                &&& t.overflowed == (s.overflowed || dropped > 0)
                &&& dropped <= i < before ==> t.dac[i - dropped] == s.dac[i]
                &&& before <= i < before + arrived && dropped <= i ==> {
                    let f = t.dac[i - dropped];
                    let at = 8 * (i - before);
                    sample_at(data@, at, f.1) && sample_at(data@, at + 4, f.0)
                }
            }
        },
{
}

/// How many frames wait after a transfer: all that fit ten seconds of audio,
/// whatever the rate.
pub proof fn law_dac_room(a: &mut Analyzer, data: &[u8], m: &Moment, r: Result<usize, Stall>)
    requires
        call_ensures(<Analyzer as UsbBackend>::out_transfer, (a, 0x02u8, data, m), r),
        old(a)@.stream is Some,
    ensures
        final(a)@.stream is Some,
        ({
            let all = old(a)@.stream->0.dac.len() + data@.len() as int / 8;
            let room = 10 * hertz(old(a)@.rate_idx);
            &&& all <= room ==> final(a)@.stream->0.dac.len() == all
            &&& all > room ==> final(a)@.stream->0.dac.len() == room
        }),
{
}

/// The next frames of a stream are first what is left of the latency, then the
/// queued DAC frames in order, then silence; they leave the queue, and are
/// counted.
pub proof fn law_loopback(a: &mut Analyzer, n: usize, block: Option<Block>, i: int)
    requires
        call_ensures(Analyzer::produce_adc_block, (a, n), block),
        old(a)@.stream matches Some(s) ==> s.emitted + n <= u64::MAX,
        0 <= i,
    ensures
        old(a)@.stream is None ==> block is None && final(a)@ == old(a)@,
        old(a)@.stream matches Some(s) ==> {
            let latency = if s.delay < n { s.delay as int } else { n as int };
            let played = if n - latency < s.dac.len() { n - latency } else { s.dac.len() as int };
            &&& block matches Some(b)
            &&& b.frames@.len() == n
            &&& b.draws@.len() == 4 * n
            &&& i < latency ==> b.frames@[i] == (0i32, 0i32)
            &&& latency <= i < latency + played ==> b.frames@[i] == s.dac[i - latency]
            &&& latency + played <= i < n ==> b.frames@[i] == (0i32, 0i32)
            &&& final(a)@.stream matches Some(t)
            &&& final(a)@ == (AnalyzerView { stream: Some(t), ..old(a)@ })
            &&& t.started == s.started && t.phase == s.phase && t.overflowed == s.overflowed
            &&& t.emitted == s.emitted + n
            &&& t.delay == s.delay - latency
            &&& t.dac == s.dac.skip(played)
        },
{
}

/// A fresh stream hears what is played on it behind its latency: frame `i`
/// played in the first transfer is frame `latency + i` of the first block.
pub proof fn law_latency(
    latency: usize,
    seed: u64,
    now: u64,
    s: Stream,
    q: &mut Stream,
    data: &[u8],
    cap: usize,
    t: &mut Stream,
    n: usize,
    b: Block,
    i: int,
)
    requires
        call_ensures(Stream::new, (latency, seed, now), s),
        call_ensures(Stream::queue_dac, (q, data, cap), ()),
        call_ensures(Stream::take_block, (t, n), b),
        *old(q) == s,
        *old(t) == *final(q),
        data@.len() / 8 <= cap,
        0 <= i < n,
    ensures
        b.frames@.len() == n,
        i < latency ==> b.frames@[i] == (0i32, 0i32),
        latency <= i < latency + data@.len() / 8 ==> sample_at(
            data@,
            8 * (i - latency),
            b.frames@[i].1,
        ) && sample_at(data@, 8 * (i - latency) + 4, b.frames@[i].0),
        i >= latency + data@.len() / 8 ==> b.frames@[i] == (0i32, 0i32),
        final(t)@.emitted == n,
        final(t)@.started == now,
{
    let frames = crate::stream::frames_of(data@);
    assert(final(q)@.dac =~= frames);
}

/// An encoded block holds eight bytes per frame, the right sample first, low
/// byte first.
pub proof fn law_encode_block(frames: &[Frame], out: Vec<u8>, i: int)
    requires
        call_ensures(encode_block, (frames,), out),
        0 <= i < frames@.len(),
    ensures
        out@.len() == 8 * frames@.len(),
        sample_at(out@, 8 * i, frames@[i].1),
        sample_at(out@, 8 * i + 4, frames@[i].0),
{
    crate::stream::lemma_block_round_trip(frames@);
    let back = crate::stream::frames_of(out@);
    assert(back[i] == frames@[i]);
}

/// In real time a block is asked to wait until as many frames as were handed
/// out since the start, and the block itself, have passed at the selected rate
/// since the start.
pub proof fn law_due_time(a: &Analyzer, n: usize, now: u64, r: (AdcPhase, AdcAction))
    requires
        call_ensures(Analyzer::adc_step, (a, AdcPhase::Waiting, n, now, true), r),
        a@.stream matches Some(s) ==> s.emitted + n <= u64::MAX,
    ensures
        a@.stream is None ==> r == (AdcPhase::Waiting, AdcAction::AwaitChange),
        a@.stream matches Some(s) ==> {
            &&& r.0 == AdcPhase::Due
            &&& r.1 matches AdcAction::SleepUntilDue { started, samples, rate }
            &&& started == s.started
            &&& samples == s.emitted + n
            &&& rate == hertz(a@.rate_idx)
        },
{
}

/// The sum of some block sizes.
pub open spec fn total(blocks: Seq<nat>) -> nat
    decreases blocks.len(),
{
    if blocks.len() == 0 {
        0
    } else {
        total(blocks.drop_last()) + blocks.last()
    }
}

/// An analyzer after some blocks were taken from its stream.
pub open spec fn after_blocks(a: AnalyzerView, blocks: Seq<nat>) -> AnalyzerView
    decreases blocks.len(),
{
    if blocks.len() == 0 {
        a
    } else {
        let before = after_blocks(a, blocks.drop_last());
        AnalyzerView {
            stream: match before.stream {
                Some(s) => Some(s.after_block(blocks.last())),
                None => None,
            },
            ..before
        }
    }
}

/// What a stream has counted after some blocks.
proof fn lemma_counted(a: AnalyzerView, blocks: Seq<nat>)
    requires
        a.stream is Some,
        a.stream->0.emitted + total(blocks) <= u64::MAX,
    ensures
        ({
            let b = after_blocks(a, blocks);
            &&& b.stream is Some
            &&& b.stream->0.emitted == a.stream->0.emitted + total(blocks)
            &&& b.stream->0.started == a.stream->0.started
            &&& b.rate_idx == a.rate_idx
        }),
    decreases blocks.len(),
{
    if blocks.len() > 0 {
        lemma_counted(a, blocks.drop_last());
    }
}

/// Over any run of blocks since the stream was started, the next block waits
/// for all of them and itself. So once a block is no longer asked to wait, all
/// that was handed out with it is no more than the rate gives by then.
pub proof fn law_pacing(
    a: &mut Analyzer,
    m: &Moment,
    blocks: Seq<nat>,
    b: &Analyzer,
    n: usize,
    now: u64,
    r: (AdcPhase, AdcAction),
)
    requires
        call_ensures(Analyzer::write_value, (a, 8u8, 5u32, m), ()),
        old(a)@.stream is None,
        b@ == after_blocks(final(a)@, blocks),
        total(blocks) + n <= u64::MAX,
        call_ensures(Analyzer::adc_step, (b, AdcPhase::Waiting, n, now, true), r),
    ensures
        r.1 matches AdcAction::SleepUntilDue { started, samples, rate },
        r.1->started == m.now,
        r.1->samples == total(blocks) + n,
        r.1->SleepUntilDue_rate == hertz(final(a)@.rate_idx),
        // Handed out by `t`, once the wait is over: at most the rate.
        forall|t: int|
            (t - m.now) * r.1->SleepUntilDue_rate >= r.1->samples * 1_000_000_000 ==> (total(blocks)
                + n) * 1_000_000_000 <= #[trigger] ((t - m.now) * hertz(final(a)@.rate_idx)),
{
    lemma_counted(final(a)@, blocks);
}

/// Once a block is due, it is sent when the queue covers it behind the latency,
/// or when the grace is over: 20 ms in real time, a quarter of a second
/// otherwise. Until then it waits, and a stopped stream starts over.
pub proof fn law_grace(
    a: &Analyzer,
    n: usize,
    now: u64,
    realtime: bool,
    phase: AdcPhase,
    r: (AdcPhase, AdcAction),
    later: u64,
    deadline: u64,
    f: (AdcPhase, AdcAction),
)
    requires
        call_ensures(Analyzer::adc_step, (a, phase, n, now, realtime), r),
        phase == AdcPhase::Due || (phase == AdcPhase::Waiting && !realtime),
        call_ensures(
            Analyzer::adc_step,
            (a, AdcPhase::Filling { deadline }, n, later, realtime),
            f,
        ),
    ensures
        ({
            let emit = (AdcPhase::Waiting, AdcAction::Emit);
            let over = if realtime { now + 20_000_000 } else { now + 250_000_000 };
            let until = if over > u64::MAX { u64::MAX as int } else { over };
            match a@.stream {
                None => {
                    &&& r == (AdcPhase::Waiting, AdcAction::AwaitChange)
                    &&& f == (AdcPhase::Waiting, AdcAction::AwaitChange)
                },
                Some(s) => if s.delay + s.dac.len() >= n {
                    r == emit && f == emit
                } else if until <= now {
                    r == emit
                } else {
                    &&& r.1 == (AdcAction::AwaitChangeUntil { deadline: until as u64 })
                    &&& r.0 == (AdcPhase::Filling { deadline: until as u64 })
                    &&& later >= deadline ==> f == emit
                    &&& later < deadline ==> f.1 == (AdcAction::AwaitChangeUntil { deadline })
                        && f.0 == (AdcPhase::Filling { deadline })
                },
            }
        }),
{
}

/// The levels of the ranges: inputs rise by 6 dBV from 0, outputs by 10 dBV
/// from -12. Trims come from the record of the range in the served page, left
/// and right, unless its magnitude is implausible.
pub proof fn law_levels(a: &Analyzer, l: Levels)
    requires
        call_ensures(Analyzer::levels, (a,), l),
        a@.cal_page.len() == 512,
        a@.input_gain <= 7,
        a@.output_gain <= 3,
    ensures
        ({
            let (i, o) = (a@.input_gain as int, a@.output_gain as int);
            &&& l.in_dbv == 6 * i
            &&& l.out_dbv == 10 * o - 12
            &&& l.rate == hertz(a@.rate_idx)
            &&& l.adc_trim.0 == page_trim(a@.cal_page, 24 + 12 * i, 0x410C_0000)
            &&& l.adc_trim.1 == page_trim(a@.cal_page, 24 + 12 * i + 6, 0x410C_0000)
            &&& l.dac_trim.0 == page_trim(a@.cal_page, 120 + 12 * o, 0xBE99_999A)
            &&& l.dac_trim.1 == page_trim(a@.cal_page, 120 + 12 * o + 6, 0xBE99_999A)
        }),
{
    let (i, o) = (a@.input_gain as int, a@.output_gain as int);
    assert(crate::calpage::ADC_OFFSETS[i] == 24 + 12 * i);
    assert(crate::calpage::DAC_OFFSETS[o] == 120 + 12 * o);
    assert(crate::calpage::ADC_LEVELS_DBV[i] == 6 * i);
    assert(crate::calpage::DAC_LEVELS_DBV[o] == 10 * o - 12);
}

/// The trim two bytes behind a record's start, low byte first; the nominal one
/// where its magnitude, without the sign bit, reaches that of 20.0.
pub open spec fn page_trim(page: Seq<u8>, at: int, nominal: u32) -> int {
    let v = page[at + 2] + 256 * page[at + 3] + 65536 * page[at + 4] + 16777216 * page[at + 5];
    if v % 0x8000_0000 < 0x41A0_0000 {
        v
    } else {
        nominal as int
    }
}

/// The generator phase is carried by the stream and starts at zero.
pub proof fn law_generator_phase(
    a: &mut Analyzer,
    phase: u64,
    b: &Analyzer,
    p: Option<u64>,
)
    requires
        call_ensures(Analyzer::set_generator_phase, (a, phase), ()),
        call_ensures(Analyzer::generator_phase, (b,), p),
        *b == *final(a),
    ensures
        p == (if old(a)@.stream is Some { Some(phase) } else { None }),
        final(a)@.stream is Some == old(a)@.stream is Some,
        old(a)@.stream matches Some(s) ==> final(a)@.stream->0 == (StreamView { phase, ..s }),
        final(a)@ == (AnalyzerView { stream: final(a)@.stream, ..old(a)@ }),
{
}

/// SplitMix64 as published: one addition, two multiplications, three shifts.
pub proof fn law_splitmix64(seed: u64, z: u64)
    requires
        call_ensures(splitmix64, (seed,), z),
    ensures
        ({
            let a = seed.wrapping_add(0x9E37_79B9_7F4A_7C15);
            let b = (a ^ (a >> 30)).wrapping_mul(0xBF58_476D_1CE4_E5B9);
            let c = (b ^ (b >> 27)).wrapping_mul(0x94D0_49BB_1331_11EB);
            z == c ^ (c >> 31)
        }),
{
}

/// Xorshift64 with the shifts 13, 7 and 17, and the uniform numerators drawn
/// from it and from SplitMix64.
pub proof fn law_draws(
    x: u64,
    next: u64,
    state: &mut u64,
    u: u64,
    sm: &mut u64,
    w: u64,
    z: u64,
)
    requires
        call_ensures(xorshift64, (x,), next),
        call_ensures(noise_draw, (state,), u),
        *old(state) == x,
        call_ensures(unit_draw, (sm,), w),
        call_ensures(splitmix64, (*old(sm),), z),
    ensures
        ({
            let a = x ^ (x << 13);
            let b = a ^ (a >> 7);
            next == b ^ (b << 17)
        }),
        *final(state) == next,
        u == (next >> 11) + 1,
        *final(sm) == (*old(sm)).wrapping_add(0x9E37_79B9_7F4A_7C15),
        w == z >> 11,
{
}

/// The noise of a block: four draws per frame, each the next of the stream's
/// own sequence, which goes on where the block ended.
pub proof fn law_block_noise(
    s: &mut Stream,
    n: usize,
    b: Block,
    k: int,
    state: &mut u64,
    u: u64,
)
    requires
        call_ensures(Stream::take_block, (s, n), b),
        old(s)@.emitted + n <= u64::MAX,
        0 <= k < 4 * n,
        call_ensures(noise_draw, (state,), u),
        *old(state) == crate::stream::noise_state(old(s)@.rng, k as nat),
    ensures
        b.draws@.len() == 4 * n,
        b.draws@[k] == u,
        *final(state) == crate::stream::noise_state(old(s)@.rng, (k + 1) as nat),
        final(s)@.rng == crate::stream::noise_state(old(s)@.rng, 4 * n as nat),
        crate::stream::noise_state(old(s)@.rng, 0) == old(s)@.rng,
{
    let x = *final(state);
    assert(x >> 11 < 0x20_0000_0000_0000) by (bit_vector);
}

/// A stream's noise starts from its seed, mixed; zero, where it would stick, is
/// replaced.
pub proof fn law_noise_start(latency: usize, seed: u64, now: u64, s: Stream, z: u64)
    requires
        call_ensures(Stream::new, (latency, seed, now), s),
        call_ensures(splitmix64, (seed,), z),
    ensures
        z != 0 ==> s@.rng == z,
        z == 0 ==> s@.rng == 0x9E37_79B9_7F4A_7C15,
        s@.started == now,
        s@.emitted == 0,
        s@.delay == latency,
        s@.phase == 0,
        s@.dac.len() == 0,
        !s@.overflowed,
{
}

/// The configured seed is used at every start; without one, the fresh seed.
pub proof fn law_stream_seed(a: &mut Analyzer, m: &Moment, z: u64, seed: u64)
    requires
        call_ensures(Analyzer::write_value, (a, 8u8, 5u32, m), ()),
        old(a)@.stream is None,
        seed == (if old(a)@.noise_seed is Some { old(a)@.noise_seed->0 } else { m.seed }),
        call_ensures(splitmix64, (seed,), z),
        z != 0,
    ensures
        final(a)@.stream is Some,
        final(a)@.stream->0.rng == z,
{
}

/// Fresh seeds mix the clock, the process and a counter.
pub proof fn law_entropy(nanos: u64, pid: u32, counter: u64, seed: u64, z: u64)
    requires
        call_ensures(entropy_seed, (nanos, pid, counter), seed),
        call_ensures(
            splitmix64,
            (nanos ^ ((pid as u64) << 32) ^ ((counter << 24) | (counter >> 40)),),
            z,
        ),
    ensures
        seed == z,
{
}

/// What a stream tells of itself, and how many of the next frames neither the
/// latency nor the queue covers. Frames can be counted as long as their number
/// fits 64 bits.
pub proof fn law_stream_state(
    s: &Stream,
    started: u64,
    emitted: u64,
    phase: u64,
    overflowed: bool,
    n: usize,
    missing: usize,
    t: &mut Stream,
    a: &Analyzer,
    countable: bool,
)
    requires
        call_ensures(Stream::started, (s,), started),
        call_ensures(Stream::emitted, (s,), emitted),
        call_ensures(Stream::phase, (s,), phase),
        call_ensures(Stream::has_overflowed, (s,), overflowed),
        call_ensures(Stream::missing_frames, (s, n), missing),
        call_ensures(Stream::set_phase, (t, phase), ()),
        call_ensures(Analyzer::can_count, (a, n), countable),
    ensures
        started == s@.started && emitted == s@.emitted && phase == s@.phase && overflowed
            == s@.overflowed,
        missing == (if n > s@.delay + s@.dac.len() {
            n - s@.delay - s@.dac.len()
        } else {
            0
        }),
        final(t)@ == (StreamView { phase, ..old(t)@ }),
        countable == !(a@.stream is Some && a@.stream->0.emitted + n > u64::MAX),
{
}

} // verus!

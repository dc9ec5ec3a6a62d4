//! The queues of a streaming session: DAC frames waiting to be looped back,
//! the latency ahead of them and the noise sequence under them.

use crate::rng::{
    lemma_splitmix64_injective, lemma_xorshift64_apart, lemma_xorshift64_moves,
    lemma_xorshift64_moves_twice, lemma_xorshift64_nonzero, noise_draw, splitmix64, splitmix64_of,
    xorshift64_of, GOLDEN_GAMMA,
};
use crate::wire::{
    get_le32, le32, le32_at, lemma_le32_round_trip, put_le32, signed, to_signed, to_word, word,
};
use std::collections::VecDeque;
use vstd::prelude::*;

verus! {

/// A stereo frame, as (left, right).
pub type Frame = (i32, i32);

/// The frame of a silent input.
pub open spec fn silence() -> Frame {
    (0, 0)
}

/// The frames of an interleaved block: little-endian words, the right sample
/// first. Bytes after the last whole frame are ignored.
pub open spec fn frames_of(data: Seq<u8>) -> Seq<Frame> {
    Seq::new(
        data.len() / 8,
        |i: int| (signed(le32_at(data, 8 * i + 4)), signed(le32_at(data, 8 * i))),
    )
}

/// The bytes of a block of frames, in the same layout.
pub open spec fn block_bytes(frames: Seq<Frame>) -> Seq<u8>
    decreases frames.len(),
{
    if frames.len() == 0 {
        Seq::empty()
    } else {
        block_bytes(frames.drop_last()) + le32(word(frames.last().1)) + le32(word(frames.last().0))
    }
}

/// Encodes a block of frames for the wire.
pub fn encode_block(frames: &[Frame]) -> (out: Vec<u8>)
    ensures
        out@ == block_bytes(frames@),
        out@.len() == 8 * frames@.len(),
{
    let mut out: Vec<u8> = Vec::new();
    let mut i: usize = 0;
    while i < frames.len()
        invariant
            i <= frames@.len(),
            out@ == block_bytes(frames@.take(i as int)),
            out@.len() == 8 * i,
        decreases frames@.len() - i,
    {
        assert(frames@.take(i + 1).drop_last() =~= frames@.take(i as int));
        put_le32(&mut out, to_word(frames[i].1));
        put_le32(&mut out, to_word(frames[i].0));
        i += 1;
    }
    assert(frames@.take(i as int) =~= frames@);
    out
}

/// A block decodes to the frames it was encoded from.
pub proof fn lemma_block_round_trip(frames: Seq<Frame>)
    ensures
        block_bytes(frames).len() == 8 * frames.len(),
        frames_of(block_bytes(frames)) == frames,
    decreases frames.len(),
{
    if frames.len() > 0 {
        let init = frames.drop_last();
        lemma_block_round_trip(init);
        let head = block_bytes(init);
        let (r, l) = (word(frames.last().1), word(frames.last().0));
        let data = block_bytes(frames);
        assert(data == head + le32(r) + le32(l));
        assert forall|i: int| 0 <= i < frames.len() implies frames_of(data)[i] == frames[i] by {
            if i < init.len() {
                assert(frames_of(head)[i] == init[i]);
                assert(le32_at(data, 8 * i) == le32_at(head, 8 * i));
                assert(le32_at(data, 8 * i + 4) == le32_at(head, 8 * i + 4));
            } else {
                lemma_le32_round_trip(r);
                lemma_le32_round_trip(l);
                assert(le32_at(data, 8 * i) == le32_at(le32(r), 0));
                assert(le32_at(data, 8 * i + 4) == le32_at(le32(l), 0));
            }
        }
    }
    assert(frames_of(block_bytes(frames)) =~= frames);
}

/// The last `cap` frames, or all of them when there are fewer.
pub open spec fn newest(frames: Seq<Frame>, cap: int) -> Seq<Frame> {
    if frames.len() > cap {
        frames.skip(frames.len() - cap)
    } else {
        frames
    }
}

/// The xorshift64 state `k` steps after `x`.
pub open spec fn noise_state(x: u64, k: nat) -> u64
    decreases k,
{
    if k == 0 {
        x
    } else {
        xorshift64_of(noise_state(x, (k - 1) as nat))
    }
}

/// The next `k` noise numerators of a xorshift64 state.
pub open spec fn noise_draws(x: u64, k: nat) -> Seq<u64> {
    Seq::new(k, |i: int| ((noise_state(x, (i + 1) as nat) >> 11) + 1) as u64)
}

/// The noise state a seed starts from: mixed, so that nearby user seeds
/// decorrelate, and never zero, where xorshift64 would stick.
pub open spec fn noise_start(seed: u64) -> u64 {
    if splitmix64_of(seed) == 0 {
        GOLDEN_GAMMA
    } else {
        splitmix64_of(seed)
    }
}

/// A noise state that is not zero never becomes zero.
pub proof fn lemma_noise_state_nonzero(x: u64, k: nat)
    requires
        x != 0,
    ensures
        noise_state(x, k) != 0,
    decreases k,
{
    if k > 0 {
        lemma_noise_state_nonzero(x, (k - 1) as nat);
        lemma_xorshift64_nonzero(noise_state(x, (k - 1) as nat));
    }
}

/// The noise sequence of any seed never sticks: no state is zero and no state
/// repeats in the next step.
pub proof fn lemma_noise_never_sticks(seed: u64, k: nat)
    ensures
        noise_state(noise_start(seed), k) != 0,
        noise_state(noise_start(seed), k + 1) != noise_state(noise_start(seed), k),
{
    lemma_noise_state_nonzero(noise_start(seed), k);
    let x = noise_state(noise_start(seed), k);
    if xorshift64_of(x) == x {
        lemma_xorshift64_moves(x);
    }
}

/// Whether two seeds start the same noise sequence: they are equal, or one of
/// them mixes to zero and the other to what zero is replaced by.
pub open spec fn same_start(a: u64, b: u64) -> bool {
    ||| a == b
    ||| splitmix64_of(a) == 0 && splitmix64_of(b) == GOLDEN_GAMMA
    ||| splitmix64_of(b) == 0 && splitmix64_of(a) == GOLDEN_GAMMA
}

/// Distinct seeds start distinct noise sequences, but for the one pair that
/// meets because zero is replaced.
pub proof fn lemma_seeds_start_apart(a: u64, b: u64)
    ensures
        (noise_start(a) == noise_start(b)) == same_start(a, b),
{
    if noise_start(a) == noise_start(b) && splitmix64_of(a) == splitmix64_of(b) {
        lemma_splitmix64_injective(a, b);
    }
}

/// The two draws of the left sample of a frame are not those of the right one.
/// So no block is constant, whatever the seed, 0 included, and wherever in the
/// stream the block stands.
pub proof fn lemma_noise_not_constant(seed: u64, k: nat, n: nat, i: int)
    requires
        0 <= i < n,
    ensures
        ({
            let draws = noise_draws(noise_state(noise_start(seed), k), 4 * n);
            draws[4 * i] != draws[4 * i + 2] || draws[4 * i + 1] != draws[4 * i + 3]
        }),
{
    let x = noise_state(noise_start(seed), k);
    lemma_noise_state_nonzero(noise_start(seed), k);
    lemma_noise_state_nonzero(x, (4 * i) as nat);
    let left = noise_state(x, (4 * i) as nat);
    reveal_with_fuel(noise_state, 5);
    let right = noise_state(x, (4 * i + 2) as nat);
    if right == left {
        lemma_xorshift64_moves_twice(left);
    }
    lemma_xorshift64_apart(left, right);
    lemma_draw_high_bits(left);
    lemma_draw_high_bits(right);
}

/// The two draws after a state, by the high bits of the next two states.
proof fn lemma_draw_high_bits(x: u64)
    ensures
        (xorshift64_of(x) >> 11) < 0x20_0000_0000_0000,
        (xorshift64_of(xorshift64_of(x)) >> 11) < 0x20_0000_0000_0000,
{
    let y = xorshift64_of(x);
    let z = xorshift64_of(y);
    assert(y >> 11 < 0x20_0000_0000_0000 && z >> 11 < 0x20_0000_0000_0000) by (bit_vector);
}

/// Blocks drawn from different noise states differ, in the draws of their very
/// first sample.
pub proof fn lemma_noise_states_differ(x: u64, y: u64, n: nat)
    requires
        n > 0,
    ensures
        (noise_draws(x, 4 * n) == noise_draws(y, 4 * n)) == (x == y),
{
    if x != y {
        lemma_xorshift64_apart(x, y);
        lemma_draw_high_bits(x);
        lemma_draw_high_bits(y);
        reveal_with_fuel(noise_state, 3);
        assert(noise_draws(x, 4 * n)[0] == (xorshift64_of(x) >> 11) + 1);
        assert(noise_draws(y, 4 * n)[0] == (xorshift64_of(y) >> 11) + 1);
        assert(noise_draws(x, 4 * n)[1] == (xorshift64_of(xorshift64_of(x)) >> 11) + 1);
        assert(noise_draws(y, 4 * n)[1] == (xorshift64_of(xorshift64_of(y)) >> 11) + 1);
    }
}

/// The contents of a [`Stream`].
pub struct StreamView {
    pub started: u64,
    pub emitted: u64,
    pub dac: Seq<Frame>,
    pub delay: nat,
    pub phase: u64,
    pub rng: u64,
    pub overflowed: bool,
}

/// A stream that has just started.
pub open spec fn fresh_stream(latency: nat, seed: u64, now: u64) -> StreamView {
    StreamView {
        started: now,
        emitted: 0,
        dac: Seq::empty(),
        delay: latency,
        phase: 0,
        rng: noise_start(seed),
        overflowed: false,
    }
}

impl StreamView {
    /// The stream after DAC frames were queued on it, with room for `cap`: the
    /// oldest frames over that are dropped.
    pub open spec fn after_dac(self, frames: Seq<Frame>, cap: int) -> StreamView {
        StreamView {
            dac: newest(self.dac + frames, cap),
            overflowed: self.overflowed || self.dac.len() + frames.len() > cap,
            ..self
        }
    }

    /// How many of the next `n` frames are latency.
    pub open spec fn lead(self, n: nat) -> nat {
        if n < self.delay {
            n
        } else {
            self.delay
        }
    }

    /// How many of the next `n` frames come from the DAC queue.
    pub open spec fn fed(self, n: nat) -> nat {
        if n - self.lead(n) < self.dac.len() {
            (n - self.lead(n)) as nat
        } else {
            self.dac.len()
        }
    }

    /// The next `n` loopback frames: the remaining latency, the queued DAC
    /// frames, then silence.
    pub open spec fn loopback(self, n: nat) -> Seq<Frame> {
        Seq::new(
            n,
            |i: int|
                if self.lead(n) <= i < self.lead(n) + self.fed(n) {
                    self.dac[i - self.lead(n)]
                } else {
                    silence()
                },
        )
    }

    /// The stream after `n` frames were handed out, with four noise draws each.
    pub open spec fn after_block(self, n: nat) -> StreamView {
        StreamView {
            emitted: (self.emitted + n) as u64,
            dac: self.dac.skip(self.fed(n) as int),
            delay: (self.delay - self.lead(n)) as nat,
            rng: noise_state(self.rng, 4 * n),
            ..self
        }
    }

    /// How many of the next `n` frames the DAC queue does not cover yet.
    pub open spec fn missing(self, n: nat) -> nat {
        (n - self.lead(n) - self.fed(n)) as nat
    }
}

/// The noise state after `a` steps and `b` more.
proof fn lemma_noise_state_adds(x: u64, a: nat, b: nat)
    ensures
        noise_state(noise_state(x, a), b) == noise_state(x, a + b),
    decreases b,
{
    if b > 0 {
        lemma_noise_state_adds(x, a, (b - 1) as nat);
    }
}

/// The draws of `a` steps and of `b` more.
proof fn lemma_noise_draws_join(x: u64, a: nat, b: nat)
    ensures
        noise_draws(x, a) + noise_draws(noise_state(x, a), b) == noise_draws(x, a + b),
{
    let joined = noise_draws(x, a) + noise_draws(noise_state(x, a), b);
    assert forall|i: int| 0 <= i < a + b implies joined[i] == noise_draws(x, a + b)[i] by {
        if i >= a {
            lemma_noise_state_adds(x, a, (i - a + 1) as nat);
        }
    }
    assert(joined =~= noise_draws(x, a + b));
}

/// The loopback frames of two blocks in a row.
proof fn lemma_loopback_join(s: StreamView, a: nat, b: nat)
    ensures
        s.loopback(a) + s.after_block(a).loopback(b) == s.loopback(a + b),
        s.after_block(a).after_block(b).dac == s.after_block(a + b).dac,
        s.after_block(a).after_block(b).delay == s.after_block(a + b).delay,
{
    let t = s.after_block(a);
    assert(s.lead(a) + t.lead(b) == s.lead(a + b));
    assert(s.fed(a) + t.fed(b) == s.fed(a + b));
    let joined = s.loopback(a) + t.loopback(b);
    assert forall|i: int| 0 <= i < a + b implies joined[i] == s.loopback(a + b)[i] by {}
    assert(joined =~= s.loopback(a + b));
    assert(t.after_block(b).dac =~= s.after_block(a + b).dac);
}

/// How a stream is cut into blocks does not matter: two blocks in a row hold
/// the frames and the noise of one block of their joint length, and leave the
/// stream in the same state.
pub proof fn lemma_blocks_join(s: StreamView, a: nat, b: nat)
    requires
        s.emitted + a + b <= u64::MAX,
    ensures
        s.loopback(a) + s.after_block(a).loopback(b) == s.loopback(a + b),
        noise_draws(s.rng, 4 * a) + noise_draws(s.after_block(a).rng, 4 * b) == noise_draws(
            s.rng,
            4 * (a + b),
        ),
        s.after_block(a).after_block(b) == s.after_block(a + b),
{
    lemma_loopback_join(s, a, b);
    assert(4 * a + 4 * b == 4 * (a + b));
    lemma_noise_draws_join(s.rng, 4 * a, 4 * b);
    lemma_noise_state_adds(s.rng, 4 * a, 4 * b);
}

/// A fresh stream loops the DAC frames back in order behind its latency, with
/// silence on both sides of them.
pub proof fn lemma_loopback_latency(
    latency: nat,
    seed: u64,
    now: u64,
    frames: Seq<Frame>,
    cap: int,
    n: nat,
    i: int,
)
    requires
        frames.len() <= cap,
        0 <= i < n,
    ensures
        fresh_stream(latency, seed, now).after_dac(frames, cap).loopback(n)[i] == (if latency <= i
            < latency + frames.len() {
            frames[i - latency]
        } else {
            silence()
        }),
{
    assert(fresh_stream(latency, seed, now).after_dac(frames, cap).dac =~= frames);
}

/// What happens to a running stream.
pub enum StreamOp {
    /// DAC frames arrive, with room for `cap`.
    Dac { frames: Seq<Frame>, cap: int },
    /// A block of `n` frames is handed out.
    Block { n: nat },
}

impl StreamView {
    /// The stream after some operations.
    pub open spec fn after_ops(self, ops: Seq<StreamOp>) -> StreamView
        decreases ops.len(),
    {
        if ops.len() == 0 {
            self
        } else {
            let before = self.after_ops(ops.drop_last());
            match ops.last() {
                StreamOp::Dac { frames, cap } => before.after_dac(frames, cap),
                StreamOp::Block { n } => before.after_block(n),
            }
        }
    }

    /// The loopback frames of the blocks among some operations.
    pub open spec fn heard(self, ops: Seq<StreamOp>) -> Seq<Frame>
        decreases ops.len(),
    {
        if ops.len() == 0 {
            Seq::empty()
        } else {
            let before = self.heard(ops.drop_last());
            match ops.last() {
                StreamOp::Dac { .. } => before,
                StreamOp::Block { n } => before + self.after_ops(ops.drop_last()).loopback(n),
            }
        }
    }

    /// Whether all DAC frames fit their room and every block finds its source.
    pub open spec fn keeps_up(self, ops: Seq<StreamOp>) -> bool
        decreases ops.len(),
    {
        ops.len() == 0 || {
            let before = self.after_ops(ops.drop_last());
            &&& self.keeps_up(ops.drop_last())
            &&& match ops.last() {
                StreamOp::Dac { frames, cap } => before.dac.len() + frames.len() <= cap,
                StreamOp::Block { n } => before.missing(n) == 0,
            }
        }
    }

    /// What the next frames are made of: the remaining latency, then the queue.
    pub open spec fn ahead(self) -> Seq<Frame> {
        Seq::new(self.delay, |i: int| silence()) + self.dac
    }
}

/// The DAC frames that arrive among some operations.
pub open spec fn played(ops: Seq<StreamOp>) -> Seq<Frame>
    decreases ops.len(),
{
    if ops.len() == 0 {
        Seq::empty()
    } else {
        match ops.last() {
            StreamOp::Dac { frames, .. } => played(ops.drop_last()) + frames,
            StreamOp::Block { .. } => played(ops.drop_last()),
        }
    }
}

/// The loopback is a delay line: however DAC writes and ADC reads interleave,
/// as long as the host keeps up, what it hears and what is still ahead is the
/// latency and then everything it played, in order.
pub proof fn lemma_loopback_in_order(s: StreamView, ops: Seq<StreamOp>)
    requires
        s.keeps_up(ops),
    ensures
        s.heard(ops) + s.after_ops(ops).ahead() == s.ahead() + played(ops),
    decreases ops.len(),
{
    if ops.len() > 0 {
        let init = ops.drop_last();
        lemma_loopback_in_order(s, init);
        let before = s.after_ops(init);
        match ops.last() {
            StreamOp::Dac { frames, cap } => {
                assert(s.after_ops(ops).ahead() =~= before.ahead() + frames);
                assert(s.heard(ops) + s.after_ops(ops).ahead() =~= (s.heard(init) + before.ahead())
                    + frames);
                assert(s.ahead() + played(ops) =~= (s.ahead() + played(init)) + frames);
            },
            StreamOp::Block { n } => {
                assert(before.loopback(n) + s.after_ops(ops).ahead() =~= before.ahead());
                assert(s.heard(ops) + s.after_ops(ops).ahead() =~= s.heard(init)
                    + before.ahead());
            },
        }
    } else {
        assert(s.heard(ops) + s.ahead() =~= s.ahead() + played(ops));
    }
}

/// The DAC queue never holds more than its room, and what it holds is the end
/// of what was queued.
pub proof fn lemma_queue_bounded(s: StreamView, frames: Seq<Frame>, cap: int)
    requires
        0 <= cap,
    ensures
        s.after_dac(frames, cap).dac.len() <= cap,
        s.after_dac(frames, cap).dac.is_suffix_of(s.dac + frames),
{
}

/// What an audio block is made from.
#[derive(Debug)]
pub struct Block {
    /// The looped-back DAC frames.
    pub frames: Vec<Frame>,
    /// Noise numerators over 2^53, uniform in (0, 1]: two for the left sample
    /// and two for the right sample of each frame.
    pub draws: Vec<u64>,
}

/// One active streaming session (STREAM_CTRL = 5).
#[derive(Debug)]
pub struct Stream {
    /// When it started, on the transfers' clock.
    started: u64,
    /// Frames already handed to the host, for real-time pacing.
    emitted: u64,
    /// DAC frames received and not yet looped back.
    dac: VecDeque<Frame>,
    /// Loopback latency still to inject, in frames.
    delay: usize,
    /// Independent-generator phase (bit pattern of the double, in radians).
    phase: u64,
    /// Noise RNG state (xorshift64).
    rng: u64,
    /// The DAC queue has overflowed in this stream.
    overflowed: bool,
}

impl View for Stream {
    type V = StreamView;

    closed spec fn view(&self) -> StreamView {
        StreamView {
            started: self.started,
            emitted: self.emitted,
            dac: self.dac@,
            delay: self.delay as nat,
            phase: self.phase,
            rng: self.rng,
            overflowed: self.overflowed,
        }
    }
}

impl Stream {
    /// Starts a stream.
    pub fn new(latency: usize, seed: u64, now: u64) -> (s: Self)
        ensures
            s@ == fresh_stream(latency as nat, seed, now),
    {
        let state: u64 = splitmix64(seed);
        Stream {
            started: now,
            emitted: 0,
            dac: VecDeque::new(),
            delay: latency,
            phase: 0,
            rng: if state == 0 {
                GOLDEN_GAMMA
            } else {
                state
            },
            overflowed: false,
        }
    }

    /// When the stream started.
    pub fn started(&self) -> (t: u64)
        ensures
            t == self@.started,
    {
        self.started
    }

    /// Frames handed out so far.
    pub fn emitted(&self) -> (n: u64)
        ensures
            n == self@.emitted,
    {
        self.emitted
    }

    /// The generator phase.
    pub fn phase(&self) -> (p: u64)
        ensures
            p == self@.phase,
    {
        self.phase
    }

    /// Moves the generator phase.
    pub fn set_phase(&mut self, phase: u64)
        ensures
            final(self)@ == (StreamView { phase, ..old(self)@ }),
    {
        self.phase = phase;
    }

    /// Whether the DAC queue has overflowed since the start.
    pub fn has_overflowed(&self) -> (b: bool)
        ensures
            b == self@.overflowed,
    {
        self.overflowed
    }

    /// Queues the frames of a DAC block, with room for `cap` of them: a
    /// pathological host cannot grow the queue without bound.
    pub fn queue_dac(&mut self, data: &[u8], cap: usize)
        ensures
            final(self)@ == old(self)@.after_dac(frames_of(data@), cap as int),
    {
        let ghost before = self@;
        let ghost frames = frames_of(data@);
        let mut i: usize = 0;
        while data.len() - i >= 8
            invariant
                i <= data@.len(),
                i % 8 == 0,
                frames == frames_of(data@),
                self@ == (StreamView { dac: before.dac + frames.take(i as int / 8), ..before }),
            decreases data@.len() - i,
        {
            let r: i32 = to_signed(get_le32(data, i));
            let l: i32 = to_signed(get_le32(data, i + 4));
            let ghost k = i as int / 8;
            assert(8 * k == i && k < frames.len());
            assert(frames[k] == (l, r));
            self.dac.push_back((l, r));
            i += 8;
            assert(i as int / 8 == k + 1);
            assert(frames.take(k + 1) =~= frames.take(k).push((l, r)));
            assert(self@.dac =~= before.dac + frames.take(k + 1));
        }
        assert(i as int / 8 == frames.len());
        assert(frames.take(frames.len() as int) =~= frames);
        let ghost all = before.dac + frames;
        assert(self@.dac == all);
        if self.dac.len() > cap {
            self.overflowed = true;
            let ghost mut dropped: int = 0;
            assert(all.skip(0) =~= all);
            while self.dac.len() > cap
                invariant
                    0 <= dropped,
                    all.len() > cap,
                    all.len() - dropped >= cap,
                    self@ == (StreamView { dac: all.skip(dropped), overflowed: true, ..before }),
                decreases self.dac@.len(),
            {
                assert(self@.dac.len() > cap);
                let _ = self.dac.pop_front();
                proof {
                    assert(all.skip(dropped).subrange(1, all.skip(dropped).len() as int)
                        =~= all.skip(dropped + 1));
                    dropped = dropped + 1;
                }
            }
            assert(all.skip(dropped).len() == cap);
        }
        assert(self@.dac =~= newest(all, cap as int));
    }

    /// How many of the next `n` frames the DAC queue does not cover yet.
    pub fn missing_frames(&self, n: usize) -> (k: usize)
        ensures
            k == self@.missing(n as nat),
    {
        let after_latency: usize = if n < self.delay {
            0
        } else {
            n - self.delay
        };
        if after_latency < self.dac.len() {
            0
        } else {
            after_latency - self.dac.len()
        }
    }

    /// Takes what the next `n` frames are made from.
    pub fn take_block(&mut self, n: usize) -> (b: Block)
        requires
            old(self)@.emitted + n <= u64::MAX,
        ensures
            b.frames@ == old(self)@.loopback(n as nat),
            b.draws@ == noise_draws(old(self)@.rng, 4 * n as nat),
            final(self)@ == old(self)@.after_block(n as nat),
    {
        let ghost before = self@;
        let mut frames: Vec<Frame> = Vec::new();
        let mut draws: Vec<u64> = Vec::new();
        let mut i: usize = 0;
        assert(before.dac.skip(0) =~= before.dac);
        while i < n
            invariant
                i <= n,
                frames@ =~= before.loopback(i as nat),
                draws@ =~= noise_draws(before.rng, 4 * i as nat),
                self@ == (StreamView { emitted: before.emitted, ..before.after_block(i as nat) }),
            decreases n - i,
        {
            let ghost so_far = self@;
            let frame: Frame = if self.delay > 0 {
                self.delay -= 1;
                (0, 0)
            } else {
                match self.dac.pop_front() {
                    Some(f) => f,
                    None => (0, 0),
                }
            };
            frames.push(frame);
            let mut state: u64 = self.rng;
            let u0: u64 = noise_draw(&mut state);
            let u1: u64 = noise_draw(&mut state);
            let u2: u64 = noise_draw(&mut state);
            let u3: u64 = noise_draw(&mut state);
            draws.push(u0);
            draws.push(u1);
            draws.push(u2);
            draws.push(u3);
            self.rng = state;
            proof {
                let k = 4 * i as nat;
                let x = before.rng;
                assert(noise_state(x, k + 1) == xorshift64_of(so_far.rng));
                assert(noise_state(x, k + 2) == xorshift64_of(noise_state(x, k + 1)));
                assert(noise_state(x, k + 3) == xorshift64_of(noise_state(x, k + 2)));
                assert(noise_state(x, k + 4) == xorshift64_of(noise_state(x, k + 3)));
                assert(4 * (i + 1) as nat == k + 4);
                assert(draws@ =~= noise_draws(x, k + 4));
                let taken = before.fed(i as nat) as int;
                if so_far.delay == 0 && so_far.dac.len() > 0 {
                    assert(self@.dac =~= before.dac.skip(taken + 1));
                }
                assert(self@.dac =~= before.after_block((i + 1) as nat).dac);
            }
            i += 1;
        }
        self.emitted = self.emitted + n as u64;
        Block { frames, draws }
    }
}

} // verus!

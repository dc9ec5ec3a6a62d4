//! Seeding helpers shared by the noise engine, the calibration-page generator
//! and the random serial numbers.

use vstd::arithmetic::div_mod::{
    lemma_mod_multiples_vanish, lemma_mul_mod_noop_left, lemma_small_mod,
};
use vstd::prelude::*;

verus! {

/// Increment between two successive SplitMix64 states.
pub const GOLDEN_GAMMA: u64 = 0x9E37_79B9_7F4A_7C15;

/// First multiplier of the SplitMix64 finalizer.
pub const MIX_1: u64 = 0xBF58_476D_1CE4_E5B9;

/// Second multiplier of the SplitMix64 finalizer.
pub const MIX_2: u64 = 0x94D0_49BB_1331_11EB;

/// `z` xored with itself shifted right by `k` bits.
pub open spec fn fold_right(z: u64, k: u64) -> u64 {
    z ^ (z >> k)
}

/// The SplitMix64 output for a state of `seed`.
pub open spec fn splitmix64_of(seed: u64) -> u64 {
    let z0 = seed.wrapping_add(GOLDEN_GAMMA);
    let z1 = fold_right(z0, 30).wrapping_mul(MIX_1);
    let z2 = fold_right(z1, 27).wrapping_mul(MIX_2);
    fold_right(z2, 31)
}

/// SplitMix64 finalizer: bijective, well mixed, good enough to decorrelate
/// nearby seeds (0, 1, 2, ...) into unrelated xorshift states.
pub fn splitmix64(seed: u64) -> (z: u64)
    ensures
        z == splitmix64_of(seed),
{
    let mut z: u64 = seed.wrapping_add(GOLDEN_GAMMA);
    z = (z ^ (z >> 30)).wrapping_mul(MIX_1);
    z = (z ^ (z >> 27)).wrapping_mul(MIX_2);
    z ^ (z >> 31)
}

/// Inverse of [`MIX_1`] modulo 2^64.
pub const UNMIX_1: u64 = 0x96de_1b17_3f11_9089;

/// Inverse of [`MIX_2`] modulo 2^64.
pub const UNMIX_2: u64 = 0x3196_42b2_d24d_8ec3;

/// The seed whose SplitMix64 output is `z`.
pub closed spec fn splitmix64_inverse(z: u64) -> u64 {
    let z2 = z ^ (z >> 31) ^ (z >> 62);
    let y1 = z2.wrapping_mul(UNMIX_2);
    let z1 = y1 ^ (y1 >> 27) ^ (y1 >> 54);
    let y0 = z1.wrapping_mul(UNMIX_1);
    let z0 = y0 ^ (y0 >> 30) ^ (y0 >> 60);
    z0.wrapping_sub(GOLDEN_GAMMA)
}

/// Multiplying by `c` and then by its inverse gives the value back.
proof fn lemma_mul_inverse(x: u64, c: u64, inverse: u64, k: int)
    requires
        c as int * inverse as int == 1 + k * 0x1_0000_0000_0000_0000,
    ensures
        x.wrapping_mul(c).wrapping_mul(inverse) == x,
{
    let m: int = 0x1_0000_0000_0000_0000;
    let (xi, ci, vi) = (x as int, c as int, inverse as int);
    lemma_mul_mod_noop_left(xi * ci, vi, m);
    assert((xi * ci) * vi == m * (xi * k) + xi) by (nonlinear_arith)
        requires
            ci * vi == 1 + k * m,
    ;
    lemma_mod_multiples_vanish(xi * k, xi, m);
    lemma_small_mod(x as nat, m as nat);
    assert(x.wrapping_mul(c) as int == (xi * ci) % m);
}

/// The two multipliers have inverses.
proof fn lemma_inverses()
    ensures
        MIX_1 as int * UNMIX_1 as int == 1 + 0x70c3_bca7_8f27_f46c * 0x1_0000_0000_0000_0000,
        UNMIX_1 as int * MIX_1 as int == 1 + 0x70c3_bca7_8f27_f46c * 0x1_0000_0000_0000_0000,
        MIX_2 as int * UNMIX_2 as int == 1 + 0x1cd3_36ed_a85f_1453 * 0x1_0000_0000_0000_0000,
        UNMIX_2 as int * MIX_2 as int == 1 + 0x1cd3_36ed_a85f_1453 * 0x1_0000_0000_0000_0000,
{
}

/// SplitMix64 is a bijection on 64-bit values: each output comes from exactly
/// one seed.
pub proof fn lemma_splitmix64_bijective(seed: u64, z: u64)
    ensures
        splitmix64_inverse(splitmix64_of(seed)) == seed,
        splitmix64_of(splitmix64_inverse(z)) == z,
{
    lemma_inverses();
    let (k1, k2) = (0x70c3_bca7_8f27_f46cint, 0x1cd3_36ed_a85f_1453int);
    // Forward, then back.
    let a0 = seed.wrapping_add(GOLDEN_GAMMA);
    let a1 = fold_right(a0, 30).wrapping_mul(MIX_1);
    let a2 = fold_right(a1, 27).wrapping_mul(MIX_2);
    let a = fold_right(a2, 31);
    assert(a ^ (a >> 31) ^ (a >> 62) == a2) by (bit_vector)
        requires
            a == a2 ^ (a2 >> 31),
    ;
    lemma_mul_inverse(fold_right(a1, 27), MIX_2, UNMIX_2, k2);
    let b1 = fold_right(a1, 27);
    assert(b1 ^ (b1 >> 27) ^ (b1 >> 54) == a1) by (bit_vector)
        requires
            b1 == a1 ^ (a1 >> 27),
    ;
    lemma_mul_inverse(fold_right(a0, 30), MIX_1, UNMIX_1, k1);
    let b0 = fold_right(a0, 30);
    assert(b0 ^ (b0 >> 30) ^ (b0 >> 60) == a0) by (bit_vector)
        requires
            b0 == a0 ^ (a0 >> 30),
    ;
    // Back, then forward.
    let z2 = z ^ (z >> 31) ^ (z >> 62);
    assert(z2 ^ (z2 >> 31) == z) by (bit_vector)
        requires
            z2 == z ^ (z >> 31) ^ (z >> 62),
    ;
    let y1 = z2.wrapping_mul(UNMIX_2);
    lemma_mul_inverse(z2, UNMIX_2, MIX_2, k2);
    let z1 = y1 ^ (y1 >> 27) ^ (y1 >> 54);
    assert(z1 ^ (z1 >> 27) == y1) by (bit_vector)
        requires
            z1 == y1 ^ (y1 >> 27) ^ (y1 >> 54),
    ;
    let y0 = z1.wrapping_mul(UNMIX_1);
    lemma_mul_inverse(z1, UNMIX_1, MIX_1, k1);
    let z0 = y0 ^ (y0 >> 30) ^ (y0 >> 60);
    assert(z0 ^ (z0 >> 30) == y0) by (bit_vector)
        requires
            z0 == y0 ^ (y0 >> 30) ^ (y0 >> 60),
    ;
    assert(z0.wrapping_sub(GOLDEN_GAMMA).wrapping_add(GOLDEN_GAMMA) == z0);
}

/// Distinct seeds stay distinct through SplitMix64.
pub proof fn lemma_splitmix64_injective(a: u64, b: u64)
    requires
        splitmix64_of(a) == splitmix64_of(b),
    ensures
        a == b,
{
    lemma_splitmix64_bijective(a, 0);
    lemma_splitmix64_bijective(b, 0);
}

/// What a fresh seed is mixed from: wall clock, process id and a counter.
pub open spec fn entropy_of(nanos: u64, pid: u32, counter: u64) -> u64 {
    nanos ^ (pid as u64) << 32 ^ (counter << 24 | counter >> 40)
}

/// A fresh seed: the wall clock in nanoseconds, the process id and a
/// process-wide call counter, mixed through [`splitmix64`]. The counter keeps
/// two calls in the same clock tick (several devices starting streams at once)
/// from colliding.
pub fn entropy_seed(nanos: u64, pid: u32, counter: u64) -> (seed: u64)
    ensures
        seed == splitmix64_of(entropy_of(nanos, pid, counter)),
{
    splitmix64(nanos ^ (pid as u64) << 32 ^ (counter << 24 | counter >> 40))
}

/// Two seeds drawn in one process in the same clock tick differ, since their
/// counters do.
pub proof fn lemma_entropy_seeds_distinct(nanos: u64, pid: u32, first: u64, second: u64)
    requires
        first != second,
    ensures
        splitmix64_of(entropy_of(nanos, pid, first)) != splitmix64_of(
            entropy_of(nanos, pid, second),
        ),
{
    if splitmix64_of(entropy_of(nanos, pid, first)) == splitmix64_of(
        entropy_of(nanos, pid, second),
    ) {
        lemma_splitmix64_injective(
            entropy_of(nanos, pid, first),
            entropy_of(nanos, pid, second),
        );
        let p = (pid as u64) << 32;
        assert(first == second) by (bit_vector)
            requires
                nanos ^ p ^ (first << 24 | first >> 40) == nanos ^ p ^ (second << 24 | second
                    >> 40),
        ;
    }
}

/// The xorshift64 state that follows `x`.
pub open spec fn xorshift64_of(x: u64) -> u64 {
    let a = x ^ (x << 13);
    let b = a ^ (a >> 7);
    b ^ (b << 17)
}

/// One xorshift64 step.
pub fn xorshift64(x: u64) -> (next: u64)
    ensures
        next == xorshift64_of(x),
{
    let a: u64 = x ^ (x << 13);
    let b: u64 = a ^ (a >> 7);
    b ^ (b << 17)
}

/// A xorshift64 state that is not zero never becomes zero.
pub proof fn lemma_xorshift64_nonzero(x: u64)
    requires
        x != 0,
    ensures
        xorshift64_of(x) != 0,
{
    let a = x ^ (x << 13);
    let b = a ^ (a >> 7);
    assert(a != 0) by (bit_vector)
        requires
            x != 0,
            a == x ^ (x << 13),
    ;
    assert(b != 0) by (bit_vector)
        requires
            a != 0,
            b == a ^ (a >> 7),
    ;
    assert(b ^ (b << 17) != 0) by (bit_vector)
        requires
            b != 0,
    ;
}

/// A xorshift64 step is linear over exclusive or.
pub proof fn lemma_xorshift64_linear(x: u64, y: u64)
    ensures
        xorshift64_of(x) ^ xorshift64_of(y) == xorshift64_of(x ^ y),
{
    assert(xorshift64_of(x) ^ xorshift64_of(y) == xorshift64_of(x ^ y)) by (bit_vector);
}

/// A xorshift64 step moves every state but zero.
pub proof fn lemma_xorshift64_moves(x: u64)
    requires
        xorshift64_of(x) == x,
    ensures
        x == 0,
{
    assert(x == 0) by (bit_vector)
        requires
            xorshift64_of(x) == x,
    ;
}

/// Two xorshift64 steps move every state but zero.
pub proof fn lemma_xorshift64_moves_twice(x: u64)
    requires
        xorshift64_of(xorshift64_of(x)) == x,
    ensures
        x == 0,
{
    let y = xorshift64_of(x);
    lemma_xorshift64_linear(x, y);
    assert(x ^ y == y ^ x) by (bit_vector);
    lemma_xorshift64_moves(x ^ y);
    assert(x == y) by (bit_vector)
        requires
            x ^ y == 0,
    ;
    lemma_xorshift64_moves(x);
}

/// The high bits of the next two states tell two states apart.
pub proof fn lemma_xorshift64_apart(x: u64, y: u64)
    requires
        x != y,
    ensures
        xorshift64_of(x) >> 11 != xorshift64_of(y) >> 11 || xorshift64_of(xorshift64_of(x)) >> 11
            != xorshift64_of(xorshift64_of(y)) >> 11,
{
    let (x1, y1) = (xorshift64_of(x), xorshift64_of(y));
    let (x2, y2) = (xorshift64_of(x1), xorshift64_of(y1));
    lemma_xorshift64_linear(x, y);
    lemma_xorshift64_linear(x1, y1);
    assert(x ^ y != 0) by (bit_vector)
        requires
            x != y,
    ;
    lemma_xorshift64_nonzero(x ^ y);
    let d = x1 ^ y1;
    let e = x2 ^ y2;
    assert(d >> 11 == 0 ==> e >> 11 != 0) by (bit_vector)
        requires
            d != 0,
            e == xorshift64_of(d),
    ;
    assert(x1 >> 11 == y1 >> 11 ==> d >> 11 == 0) by (bit_vector)
        requires
            d == x1 ^ y1,
    ;
    assert(x2 >> 11 == y2 >> 11 ==> e >> 11 == 0) by (bit_vector)
        requires
            e == x2 ^ y2,
    ;
}

/// Advances a xorshift64 state and draws a uniform numerator from it: the
/// result over 2^53 is uniform in (0, 1].
pub fn noise_draw(state: &mut u64) -> (u: u64)
    ensures
        *final(state) == xorshift64_of(*old(state)),
        u == (*final(state) >> 11) + 1,
        1 <= u <= 0x20_0000_0000_0000,
{
    let x: u64 = xorshift64(*state);
    *state = x;
    assert(x >> 11 < 0x20_0000_0000_0000) by (bit_vector);
    (x >> 11) + 1
}

/// Advances a SplitMix64 state and draws a uniform numerator from it: the
/// result over 2^52, less one, is uniform in [-1, 1).
pub fn unit_draw(state: &mut u64) -> (u: u64)
    ensures
        *final(state) == old(state).wrapping_add(GOLDEN_GAMMA),
        u == splitmix64_of(*old(state)) >> 11,
        u < 0x20_0000_0000_0000,
{
    let z: u64 = splitmix64(*state);
    *state = state.wrapping_add(GOLDEN_GAMMA);
    assert(z >> 11 < 0x20_0000_0000_0000) by (bit_vector);
    z >> 11
}

} // verus!

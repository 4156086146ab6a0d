//! Reproducible input: uniform singles in [-1, 1) from a splitmix64 generator.
use vstd::prelude::*;
use vstd::arithmetic::power2::{
    lemma2_to64, lemma_pow2_adds, lemma_pow2_pos, lemma_pow2_strictly_increases, lemma_pow2_unfold,
    pow2,
};
use crate::bf16::{scaled, F32};
use crate::math::{lemma_join, lemma_split};

verus! {

/// Distance of two states of the generator.
pub const GAMMA: u64 = 0x9E37_79B9_7F4A_7C15;

/// First multiplier of the output function.
pub const MIX_1: u64 = 0xBF58_476D_1CE4_E5B9;

/// Second multiplier of the output function.
pub const MIX_2: u64 = 0x94D0_49BB_1331_11EB;

/// State of the generator after `i` draws.
pub open spec fn state_after(seed: u64, i: nat) -> u64
    decreases i,
{
    if i == 0 {
        seed
    } else {
        state_after(seed, (i - 1) as nat).wrapping_add(GAMMA)
    }
}

/// Output of the generator in a state.
pub open spec fn mixed(state: u64) -> u64 {
    let x = (state ^ (state >> 30u64)).wrapping_mul(MIX_1);
    let y = (x ^ (x >> 27u64)).wrapping_mul(MIX_2);
    y ^ (y >> 31u64)
}

/// Draw `i` from a seed, in units of 2^-23: the top 24 bits of the output,
/// centred on zero.
pub open spec fn draw(seed: u64, i: nat) -> int {
    mixed(state_after(seed, i + 1)) as int / 0x100_0000_0000 - 0x80_0000
}

/// Whether a single is `n` times 2^-23, with no sign on zero.
pub open spec fn is_draw(x: F32, n: int) -> bool {
    &&& x.is_finite()
    &&& x.bits as int / 0x8000_0000 == if n < 0 {
        1int
    } else {
        0int
    }
    &&& scaled(x.magnitude()) == (if n < 0 {
        -n
    } else {
        n
    }) * pow2(126)
}

/// The output of the generator in a state.
fn mix(state: u64) -> (r: u64)
    ensures
        r == mixed(state),
{
    let mut z: u64 = state;
    z = (z ^ (z >> 30u64)).wrapping_mul(MIX_1);
    z = (z ^ (z >> 27u64)).wrapping_mul(MIX_2);
    z ^ (z >> 31u64)
}

/// The single of `n` times 2^-23.
fn encode(n: i32) -> (r: F32)
    requires
        -0x80_0000 <= n <= 0x80_0000,
    ensures
        is_draw(r, n as int),
{
    let sign: u32 = if n < 0 {
        0x8000_0000
    } else {
        0
    };
    let size: u32 = if n < 0 {
        (0 - n) as u32
    } else {
        n as u32
    };
    if size == 0 {
        return F32 { bits: 0 };
    }
    let mut significand: u32 = size;
    let mut shift: u32 = 0;
    proof {
        lemma2_to64();
    }
    while significand < 0x80_0000
        invariant
            0 < size <= 0x80_0000,
            size <= significand,
            significand < 0x100_0000,
            significand == size * pow2(shift as nat),
            shift < 24,
            significand >= pow2(shift as nat),
        decreases 0x100_0000 - significand,
    {
        proof {
            lemma_pow2_unfold((shift + 1) as nat);
            let p = pow2(shift as nat) as int;
            assert(size * (2 * p) == 2 * (size * p)) by (nonlinear_arith);
            lemma2_to64();
            if shift >= 23 {
                assert(pow2(23) == 0x80_0000);
                assert(shift == 23);
            }
        }
        significand = significand * 2;
        shift = shift + 1;
    }
    let exponent: u32 = 127 - shift;
    let fraction: u32 = significand - 0x80_0000;
    let bits: u32 = sign + exponent * 0x80_0000 + fraction;
    proof {
        let m = exponent * 0x80_0000 + fraction;
        assert(m / 0x80_0000 == exponent && m % 0x80_0000 == fraction);
        assert(bits as int % 0x8000_0000 == m);
        lemma_pow2_adds(shift as nat, (126 - shift) as nat);
        let p = pow2(shift as nat) as int;
        let q = pow2((126 - shift) as nat) as int;
        assert((size * p) * q == size * (p * q)) by (nonlinear_arith);
    }
    F32 { bits }
}

/// `n` draws from a seed, as singles.
pub fn uniform_vec(n: usize, seed: u64) -> (r: Vec<F32>)
    ensures
        r@.len() == n,
        forall|i: int| 0 <= i < n ==> is_draw(#[trigger] r@[i], draw(seed, i as nat)),
{
    let mut out: Vec<F32> = Vec::new();
    let mut state: u64 = seed;
    let mut i: usize = 0;
    while i < n
        invariant
            i <= n,
            out@.len() == i,
            state == state_after(seed, i as nat),
            forall|j: int| 0 <= j < i ==> is_draw(#[trigger] out@[j], draw(seed, j as nat)),
        decreases n - i,
    {
        state = state.wrapping_add(GAMMA);
        let z: u64 = mix(state);
        assert(z >> 40u64 == z / 0x100_0000_0000 && z >> 40u64 < 0x100_0000) by (bit_vector);
        let unit: u64 = z >> 40u64;
        out.push(encode(unit as i32 - 0x80_0000));
        i += 1;
    }
    out
}

/// Draws lie in [-1, 1): in units of 2^-23, from -2^23 to below 2^23.
pub proof fn law_draws_are_in_range(seed: u64, i: nat)
    ensures
        -0x80_0000 <= draw(seed, i) < 0x80_0000,
{
    let z = mixed(state_after(seed, i + 1));
    assert(z / 0x100_0000_0000 < 0x100_0000) by (bit_vector);
}

/// Greater bits, greater size.
proof fn lemma_scaled_increases(a: int, b: int)
    requires
        0 <= a < b,
    ensures
        scaled(a) < scaled(b),
{
    let (e, f) = (a / 0x80_0000, a % 0x80_0000);
    let (g, h) = (b / 0x80_0000, b % 0x80_0000);
    lemma2_to64();
    if e > 0 {
        lemma_pow2_pos((e - 1) as nat);
        lemma_pow2_unfold(e as nat);
    }
    if e == g {
        if e > 0 {
            let p = pow2((e - 1) as nat) as int;
            assert((0x80_0000 + f) * p < (0x80_0000 + h) * p) by (nonlinear_arith)
                requires
                    p > 0,
                    f < h,
            ;
        }
    } else {
        let p = pow2((g - 1) as nat) as int;
        if e > 0 {
            if e < g - 1 {
                lemma_pow2_strictly_increases(e as nat, (g - 1) as nat);
            }
            let o = pow2((e - 1) as nat) as int;
            assert((0x80_0000 + f) * o < 0x80_0000 * (2 * o)) by (nonlinear_arith)
                requires
                    o > 0,
                    f < 0x80_0000,
            ;
        } else {
            lemma_pow2_pos((g - 1) as nat);
        }
        assert((0x80_0000 + h) * p >= 0x80_0000 * p) by (nonlinear_arith)
            requires
                p >= 0,
                h >= 0,
        ;
    }
}

/// The same seed gives the same numbers, bit by bit: only one single is a
/// given draw.
pub proof fn law_draws_are_reproducible(x: F32, y: F32, n: int)
    requires
        is_draw(x, n),
        is_draw(y, n),
    ensures
        x == y,
{
    if x.magnitude() < y.magnitude() {
        lemma_scaled_increases(x.magnitude(), y.magnitude());
    } else if y.magnitude() < x.magnitude() {
        lemma_scaled_increases(y.magnitude(), x.magnitude());
    }
}

/// A state of the generator is the seed plus a multiple of the distance: each draw
/// moves on by one, however many came before.
pub proof fn law_state_is_linear(seed: u64, i: nat)
    ensures
        state_after(seed, i) == (seed + i * 0x9E37_79B9_7F4A_7C15) % 0x1_0000_0000_0000_0000,
    decreases i,
{
    if i == 0 {
        assert(seed as int % 0x1_0000_0000_0000_0000 == seed);
    } else {
        law_state_is_linear(seed, (i - 1) as nat);
        let m = 0x1_0000_0000_0000_0000int;
        let s = seed + (i - 1) * 0x9E37_79B9_7F4A_7C15;
        lemma_join(s, m);
        let x = s % m;
        lemma_join(x + 0x9E37_79B9_7F4A_7C15, m);
        let (q, r) = (
            (x + 0x9E37_79B9_7F4A_7C15) / m,
            (x + 0x9E37_79B9_7F4A_7C15) % m,
        );
        assert(seed + i * 0x9E37_79B9_7F4A_7C15 == m * (s / m + q) + r);
        lemma_split(seed + i * 0x9E37_79B9_7F4A_7C15, m, s / m + q, r);
    }
}

/// A draw is the top 24 bits, centred on zero, of the splitmix64 output for the
/// state of its number: the seed plus that many times the distance, modulo 2^64.
/// The output is the state with its own upper bits brought down 30 places and
/// multiplied, again 27 places and multiplied, and once more 31 places.
pub proof fn law_draw_is_the_splitmix_output(seed: u64, i: nat, s: u64, x: u64, y: u64)
    requires
        s == (seed + (i + 1) * 0x9E37_79B9_7F4A_7C15) % 0x1_0000_0000_0000_0000,
        x == ((s ^ (s >> 30u64)) * 0xBF58_476D_1CE4_E5B9) % 0x1_0000_0000_0000_0000,
        y == ((x ^ (x >> 27u64)) * 0x94D0_49BB_1331_11EB) % 0x1_0000_0000_0000_0000,
    ensures
        draw(seed, i) + 0x80_0000 == (y ^ (y >> 31u64)) as int / 0x100_0000_0000,
        draw(seed, i) + 0x80_0000 == (y ^ (y >> 31u64)) >> 40u64,
{
    law_state_is_linear(seed, i + 1);
    let z = y ^ (y >> 31u64);
    assert(z >> 40u64 == z / 0x100_0000_0000) by (bit_vector);
}

/// The next draw from a seed is the draw from the seed one state on: its place
/// has no influence beyond the state.
pub proof fn law_draws_shift_with_the_seed(seed: u64, i: nat)
    ensures
        draw(seed, i + 1) == draw(seed.wrapping_add(0x9E37_79B9_7F4A_7C15), i),
{
    lemma_states_shift(seed, i + 1);
}

proof fn lemma_states_shift(seed: u64, i: nat)
    ensures
        state_after(seed, i + 1) == state_after(seed.wrapping_add(GAMMA), i),
    decreases i,
{
    if i > 0 {
        lemma_states_shift(seed, (i - 1) as nat);
    } else {
        reveal_with_fuel(state_after, 2);
    }
}

/// A single that is a draw has the value of the draw: by its sign, its exponent
/// and its fraction it is `n` times 2^-23, and zero has no sign.
pub proof fn law_draw_has_its_value(x: F32, n: int)
    requires
        is_draw(x, n),
    ensures
        ({
            let magnitude = x.bits as int % 0x8000_0000;
            let (exponent, fraction) = (magnitude / 0x80_0000, magnitude % 0x80_0000);
            &&& n < 0 <==> x.bits >= 0x8000_0000
            &&& exponent < 255
            &&& n == 0 ==> x.bits == 0
            &&& exponent == 0 ==> (if n < 0 {
                -n
            } else {
                n
            }) * pow2(126) == fraction
            &&& exponent > 0 ==> (if n < 0 {
                -n
            } else {
                n
            }) * pow2(126) == (0x80_0000 + fraction) * pow2((exponent - 1) as nat)
        }),
{
    let magnitude = x.bits as int % 0x8000_0000;
    let (exponent, fraction) = (magnitude / 0x80_0000, magnitude % 0x80_0000);
    if n == 0 {
        assert(0 * pow2(126) == 0) by (nonlinear_arith);
        if exponent > 0 {
            lemma_pow2_pos((exponent - 1) as nat);
            let p = pow2((exponent - 1) as nat) as int;
            assert((0x80_0000 + fraction) * p > 0) by (nonlinear_arith)
                requires
                    p > 0,
                    fraction >= 0,
            ;
        }
    }
}

} // verus!

//! Single and brain floating-point numbers as bit patterns.
//!
//! A single has a sign, 8 bits of exponent and 23 bits of fraction; a bf16 has
//! the same sign and exponent and the first 7 bits of the fraction.
use vstd::prelude::*;
use vstd::arithmetic::power2::{lemma2_to64, lemma_pow2_pos, lemma_pow2_unfold, pow2};

verus! {

/// The bits of a single.
#[derive(Clone, Copy, PartialEq, Eq, Structural, Debug)]
pub struct F32 {
    pub bits: u32,
}

/// The bits of a bf16.
#[derive(Clone, Copy, PartialEq, Eq, Structural, Debug)]
pub struct Bf16 {
    pub bits: u16,
}

/// Bits of the infinite single.
pub const INFINITE: u32 = 0x7F80_0000;

impl F32 {
    /// The bits without the sign.
    pub open spec fn magnitude(self) -> int {
        self.bits as int % 0x8000_0000
    }

    pub open spec fn is_nan(self) -> bool {
        self.magnitude() > INFINITE
    }

    pub open spec fn is_finite(self) -> bool {
        self.magnitude() < INFINITE
    }
}

impl Bf16 {
    /// The bits without the sign.
    pub open spec fn magnitude(self) -> int {
        self.bits as int % 0x8000
    }

    pub open spec fn is_nan(self) -> bool {
        self.magnitude() > 0x7F80
    }
}

/// The nearest bf16, the even one of two: the upper half of the bits, plus one
/// where the lower half is above the middle, or on it and the upper half is
/// odd. What is not a number stays that and becomes quiet.
pub open spec fn rounded(x: F32) -> Bf16 {
    let upper = x.bits as int / 0x1_0000;
    let lower = x.bits as int % 0x1_0000;
    if x.is_nan() {
        Bf16 { bits: (upper as u16) | 0x40u16 }
    } else if lower > 0x8000 || (lower == 0x8000 && upper % 2 == 1) {
        Bf16 { bits: (upper + 1) as u16 }
    } else {
        Bf16 { bits: upper as u16 }
    }
}

/// The single of the same value. What is not a number stays that and becomes
/// quiet.
pub open spec fn widened(x: Bf16) -> F32 {
    if x.is_nan() {
        F32 { bits: ((x.bits | 0x40u16) * 0x1_0000) as u32 }
    } else {
        F32 { bits: (x.bits * 0x1_0000) as u32 }
    }
}

/// Round a single to bf16.
fn round(x: F32) -> (r: Bf16)
    ensures
        r == rounded(x),
{
    let bits: u32 = x.bits;
    assert(bits & 0x7FFF_FFFF == bits % 0x8000_0000) by (bit_vector);
    assert(bits >> 16u32 == bits / 0x1_0000) by (bit_vector);
    let upper: u16 = (bits >> 16u32) as u16;
    if bits & 0x7FFF_FFFF > INFINITE {
        return Bf16 { bits: upper | 0x40 };
    }
    assert((bits & 0x8000) != 0 && (bits & 0x1_7FFF) != 0 <==> bits % 0x1_0000 > 0x8000 || (bits
        % 0x1_0000 == 0x8000 && (bits / 0x1_0000) % 2 == 1)) by (bit_vector);
    if (bits & 0x8000) != 0 && (bits & 0x1_7FFF) != 0 {
        Bf16 { bits: upper + 1 }
    } else {
        Bf16 { bits: upper }
    }
}

/// Round singles to bf16, the input precision of the tensor-core kernels.
pub fn to_bf16(v: &[F32]) -> (r: Vec<Bf16>)
    ensures
        r@ == v@.map_values(|x: F32| rounded(x)),
{
    let mut out: Vec<Bf16> = Vec::new();
    let mut i: usize = 0;
    while i < v.len()
        invariant
            i <= v@.len(),
            out@.len() == i,
            forall|j: int| 0 <= j < i ==> #[trigger] out@[j] == rounded(v@[j]),
        decreases v@.len() - i,
    {
        out.push(round(v[i]));
        i += 1;
    }
    assert(out@ =~= v@.map_values(|x: F32| rounded(x)));
    out
}

/// Widens a bf16 with `half::bf16::to_f32`: the bits become the upper half of
/// those of the single, and the top bit of the fraction is set where the
/// number is none.
#[verifier::external_body]
fn widen(x: Bf16) -> (r: F32)
    ensures
        r == widened(x),
{
    F32 { bits: half::bf16::from_bits(x.bits).to_f32().to_bits() }
}

/// The lower bf16 of a packed word.
pub open spec fn lower_of(word: u32) -> Bf16 {
    Bf16 { bits: (word as int % 0x1_0000) as u16 }
}

/// The upper bf16 of a packed word.
pub open spec fn upper_of(word: u32) -> Bf16 {
    Bf16 { bits: (word as int / 0x1_0000) as u16 }
}

/// The numbers of packed words, the lower half of each first.
pub open spec fn unpacked(v: Seq<u32>) -> Seq<F32> {
    Seq::new(
        2 * v.len(),
        |i: int|
            if i % 2 == 0 {
                widened(lower_of(v[i / 2]))
            } else {
                widened(upper_of(v[i / 2]))
            },
    )
}

/// Unpack the C of the tensor-core kernels: two bf16 per word, lower half
/// first, to singles.
pub fn from_packed_bf16(v: &[u32]) -> (r: Vec<F32>)
    ensures
        r@ == unpacked(v@),
{
    let mut out: Vec<F32> = Vec::new();
    let mut i: usize = 0;
    while i < v.len()
        invariant
            i <= v@.len(),
            out@.len() == 2 * i,
            forall|j: int| 0 <= j < 2 * i ==> #[trigger] out@[j] == unpacked(v@)[j],
        decreases v@.len() - i,
    {
        let word: u32 = v[i];
        assert(word & 0xFFFF == word % 0x1_0000) by (bit_vector);
        assert(word >> 16u32 == word / 0x1_0000) by (bit_vector);
        out.push(widen(Bf16 { bits: (word & 0xFFFF) as u16 }));
        out.push(widen(Bf16 { bits: (word >> 16u32) as u16 }));
        i += 1;
    }
    assert(out@ =~= unpacked(v@));
    out
}

/// Rounding gives back the bf16 that was widened; one that is not a number
/// comes back quiet.
pub proof fn law_rounding_undoes_widening(x: Bf16)
    ensures
        rounded(widened(x)) == if x.is_nan() {
            Bf16 { bits: x.bits | 0x40u16 }
        } else {
            x
        },
{
    let b = x.bits;
    assert(b | 0x40u16 >= b && (b | 0x40u16) % 0x8000 >= b % 0x8000 && (b | 0x40u16) | 0x40u16 == b
        | 0x40u16) by (bit_vector);
}

/// Every number of C can be unpacked: number `i` of row-major C is the lower
/// half of word `i / 2` for even `i` and the upper half for odd `i`.
pub proof fn law_packing_keeps_order(v: Seq<u32>, low: Bf16, high: Bf16, i: int)
    requires
        0 <= i < v.len(),
        v[i] == low.bits + high.bits * 0x1_0000,
    ensures
        unpacked(v)[2 * i] == widened(low),
        unpacked(v)[2 * i + 1] == widened(high),
{
}

/// Size of a finite number in units of the smallest positive one.
pub open spec fn scaled(magnitude: int) -> int {
    let exponent = magnitude / 0x80_0000;
    let fraction = magnitude % 0x80_0000;
    if exponent == 0 {
        fraction
    } else {
        (0x80_0000 + fraction) * pow2((exponent - 1) as nat)
    }
}

/// Between two neighbouring bf16 sizes grow evenly.
proof fn lemma_even_steps(base: int, r: int, unit: int)
    requires
        0 <= base,
        base % 0x1_0000 == 0,
        0 <= r <= 0x1_0000,
        unit == if base / 0x80_0000 == 0 {
            1
        } else {
            pow2((base / 0x80_0000 - 1) as nat) as int
        },
    ensures
        scaled(base + r) == scaled(base) + r * unit,
        unit > 0,
{
    let e = base / 0x80_0000;
    let f = base % 0x80_0000;
    lemma2_to64();
    if e > 0 {
        lemma_pow2_pos((e - 1) as nat);
    }
    if f + r < 0x80_0000 {
        assert((base + r) / 0x80_0000 == e);
        assert((base + r) % 0x80_0000 == f + r);
        if e > 0 {
            assert((0x80_0000 + (f + r)) * unit == (0x80_0000 + f) * unit + r * unit)
                by (nonlinear_arith);
        }
    } else {
        assert(f + r == 0x80_0000);
        assert((base + r) / 0x80_0000 == e + 1);
        assert((base + r) % 0x80_0000 == 0);
        if e == 0 {
            assert(pow2(0) == 1);
        } else {
            lemma_pow2_unfold(e as nat);
            assert(0x80_0000 * (2 * unit) == (0x80_0000 + f) * unit + r * unit)
                by (nonlinear_arith)
                requires
                    f + r == 0x80_0000,
            ;
        }
    }
}

/// Rounding works on the magnitude alone.
#[verifier::rlimit(40)]
proof fn lemma_rounded_parts(x: F32)
    requires
        x.is_finite(),
    ensures
        ({
            let below = x.magnitude() / 0x1_0000;
            let r = x.magnitude() % 0x1_0000;
            let up = r > 0x8000 || (r == 0x8000 && below % 2 == 1);
            &&& rounded(x).bits as int / 0x8000 == x.bits as int / 0x8000_0000
            &&& rounded(x).magnitude() == below + if up {
                1int
            } else {
                0int
            }
        }),
{
    let sign = x.bits as int / 0x8000_0000;
    let m = x.magnitude();
    assert(x.bits == sign * 0x8000_0000 + m && 0 <= sign <= 1);
    let below = m / 0x1_0000;
    assert(x.bits as int / 0x1_0000 == sign * 0x8000 + below);
    assert(x.bits as int % 0x1_0000 == m % 0x1_0000);
    assert(below < 0x7F80);
    assert((sign * 0x8000 + below) % 2 == below % 2);
}

/// Rounding keeps the sign and gives a nearest bf16: of the neighbours below
/// and above, the one that is not farther away, and the even one when both are
/// as far.
#[verifier::rlimit(40)]
pub proof fn law_rounding_is_to_nearest(x: F32)
    requires
        x.is_finite(),
    ensures
        ({
            let size = scaled(x.magnitude());
            let below = x.magnitude() / 0x1_0000;
            let lo = scaled(below * 0x1_0000);
            let hi = scaled((below + 1) * 0x1_0000);
            let r = rounded(x);
            &&& r.bits as int / 0x8000 == x.bits as int / 0x8000_0000
            &&& lo <= size < hi
            &&& r.magnitude() == below || r.magnitude() == below + 1
            &&& r.magnitude() == below ==> size - lo <= hi - size
            &&& r.magnitude() == below + 1 ==> hi - size <= size - lo
            &&& size - lo == hi - size ==> r.magnitude() % 2 == 0
        }),
{
    let below = x.magnitude() / 0x1_0000;
    let base = below * 0x1_0000;
    let r = x.magnitude() % 0x1_0000;
    let unit = if base / 0x80_0000 == 0 {
        1
    } else {
        pow2((base / 0x80_0000 - 1) as nat) as int
    };
    lemma_rounded_parts(x);
    assert(base + r == x.magnitude());
    lemma_even_steps(base, r, unit);
    lemma_even_steps(base, 0x1_0000, unit);
    assert(base + 0x1_0000 == (below + 1) * 0x1_0000);
    assert(r * unit >= 0 && (0x1_0000 - r) * unit > 0 && 0x1_0000 * unit == r * unit + (0x1_0000
        - r) * unit) by (nonlinear_arith)
        requires
            unit > 0,
            0 <= r < 0x1_0000,
    ;
    assert(r < 0x8000 ==> r * unit < (0x1_0000 - r) * unit) by (nonlinear_arith)
        requires
            unit > 0,
    ;
    assert(r > 0x8000 ==> r * unit > (0x1_0000 - r) * unit) by (nonlinear_arith)
        requires
            unit > 0,
    ;
    assert(r == 0x8000 ==> r * unit == (0x1_0000 - r) * unit);
}

/// What is not a finite number keeps its sign and its kind when it is rounded:
/// the infinite stays infinite, and what is not a number stays that, with the
/// upper bits of its fraction and the top bit of it set.
pub proof fn law_rounding_keeps_special_values(x: F32)
    ensures
        x.bits % 0x8000_0000 == 0x7F80_0000 ==> rounded(x).bits == x.bits / 0x1_0000,
        x.bits % 0x8000_0000 > 0x7F80_0000 ==> rounded(x).bits == ((x.bits / 0x1_0000) as u16)
            | 0x40u16,
        x.bits % 0x8000_0000 > 0x7F80_0000 ==> rounded(x).bits % 0x8000 > 0x7F80,
        x.bits % 0x1_0000 == 0 && x.bits % 0x8000_0000 <= 0x7F80_0000 ==> rounded(x).bits == x.bits
            / 0x1_0000,
{
    let (sign, m) = (x.bits as int / 0x8000_0000, x.bits as int % 0x8000_0000);
    assert(x.bits == sign * 0x8000_0000 + m && 0 <= sign <= 1);
    let (upper, lower) = (m / 0x1_0000, m % 0x1_0000);
    assert(x.bits as int / 0x1_0000 == sign * 0x8000 + upper);
    assert(x.bits as int % 0x1_0000 == lower);
    let h = (x.bits as int / 0x1_0000) as u16;
    assert(h % 0x8000 == upper);
    assert(h % 0x8000 >= 0x7F80 ==> (h | 0x40u16) % 0x8000 > 0x7F80) by (bit_vector);
}

/// Widening keeps sign, exponent and fraction: the bits become the upper half,
/// and only what is not a number gets the top bit of its fraction set.
pub proof fn law_widening_keeps_the_value(x: Bf16)
    ensures
        x.bits % 0x8000 <= 0x7F80 ==> widened(x).bits == x.bits * 0x1_0000,
        x.bits % 0x8000 > 0x7F80 ==> widened(x).bits == (x.bits | 0x40u16) * 0x1_0000,
        widened(x).bits as int / 0x8000_0000 == x.bits as int / 0x8000,
        (widened(x).bits as int % 0x8000_0000 > 0x7F80_0000) <==> x.bits % 0x8000 > 0x7F80,
{
    let b = x.bits;
    assert((b | 0x40u16) / 0x8000 == b / 0x8000 && (b | 0x40u16) % 0x8000 >= b % 0x8000)
        by (bit_vector);
}

/// Rounding keeps the order of numbers: of two finite numbers of the same sign
/// the one that is farther from zero is not rounded closer to it.
pub proof fn law_rounding_keeps_order(x: F32, y: F32)
    requires
        x.is_finite(),
        y.is_finite(),
        x.bits as int / 0x8000_0000 == y.bits as int / 0x8000_0000,
        x.bits <= y.bits,
    ensures
        rounded(x).bits <= rounded(y).bits,
{
    lemma_rounded_parts(x);
    lemma_rounded_parts(y);
    let (p, q) = (x.magnitude(), y.magnitude());
    assert(p <= q);
    assert(p / 0x1_0000 <= q / 0x1_0000);
    assert(p / 0x1_0000 == q / 0x1_0000 ==> p % 0x1_0000 <= q % 0x1_0000);
}

/// Unpacking gives two numbers for each word: number `2 * i` from the lower 16
/// bits of word `i`, number `2 * i + 1` from the upper 16.
pub proof fn law_unpacking_splits_words(v: Seq<u32>, i: int)
    requires
        0 <= i < v.len(),
    ensures
        unpacked(v).len() == 2 * v.len(),
        unpacked(v)[2 * i] == widened(Bf16 { bits: (v[i] % 0x1_0000) as u16 }),
        unpacked(v)[2 * i + 1] == widened(Bf16 { bits: (v[i] / 0x1_0000) as u16 }),
{
}

} // verus!

//! Single-precision numbers carried by their bit patterns, read exactly.
//!
//! Font metrics and pixel coverage arrive as IEEE 754 binary32 values. This
//! module never rounds them: every finite pattern denotes a whole number of
//! steps of size 2^-149, and all results are stated over that exact count.

use vstd::prelude::*;
use vstd::arithmetic::div_mod::{lemma_div_is_ordered, lemma_fundamental_div_mod_converse};
use vstd::arithmetic::mul::{
    lemma_mul_inequality, lemma_mul_is_associative, lemma_mul_strictly_positive,
};
use vstd::arithmetic::power2::{
    lemma2_to64, lemma_pow2_adds, lemma_pow2_pos, lemma_pow2_strictly_increases, lemma_pow2_unfold,
    pow2,
};

verus! {

/// The number one, counted in steps of 2^-149.
pub open spec fn one() -> int {
    0x20000000000000000000000000000000000000int
}

/// The least whole number that is not below `n / d`, for a positive `d`.
pub open spec fn ceil_div(n: int, d: int) -> int {
    if n % d == 0 {
        n / d
    } else {
        n / d + 1
    }
}

/// The nearest value that a `usize` can hold.
pub open spec fn clamp_to_usize(n: int) -> int {
    if n < 0 {
        0
    } else if n > usize::MAX {
        usize::MAX as int
    } else {
        n
    }
}

/// 2^85 steps: one part in 2^64 of `one()`.
pub const GRAIN: u128 = 0x2000000000000000000000;

/// 2^64.
pub const FRAC_RANGE: u128 = 0x10000000000000000;

/// A binary32 number, held as its 32-bit pattern.
#[derive(Clone, Copy, Debug, PartialEq, Eq, Structural)]
pub struct Real32 {
    pub bits: u32,
}

/// A finite magnitude split at the binary point and again 64 places below it.
struct Parts {
    whole: u128,
    frac: u64,
    rest: u128,
}

impl Parts {
    /// The magnitude that the three parts add up to, in steps of 2^-149.
    spec fn total(self) -> int {
        self.whole * one() + self.frac * GRAIN + self.rest
    }
}

/// The powers of two that the splitting of a magnitude turns on.
proof fn lemma_pow2_landmarks()
    ensures
        pow2(23) == 0x800000,
        pow2(24) == 0x1000000,
        pow2(63) == 0x8000000000000000,
        pow2(64) == 0x10000000000000000,
        pow2(84) == 0x1000000000000000000000,
        pow2(85) == GRAIN,
        pow2(104) == 0x100000000000000000000000000,
        pow2(149) == one(),
{
    lemma2_to64();
    lemma_pow2_unfold(64);
    lemma_pow2_adds(64, 20);
    lemma_pow2_adds(64, 21);
    lemma_pow2_adds(64, 40);
    lemma_pow2_adds(20, 20);
    lemma_pow2_adds(85, 64);
}

/// Shifting one to the left by `k` places gives 2^k.
proof fn lemma_shift_left_one(k: u32)
    requires
        k < 128,
    ensures
        (1u128 << k) == pow2(k as nat),
    decreases k,
{
    if k == 0 {
        assert(1u128 << 0u32 == 1u128) by (bit_vector);
        lemma2_to64();
    } else {
        let j: u32 = (k - 1) as u32;
        lemma_shift_left_one(j);
        assert((1u128 << k) == 2 * (1u128 << j)) by (bit_vector)
            requires
                0 < k < 128,
                j == k - 1,
        ;
        lemma_pow2_unfold(k as nat);
    }
}

/// 2^k for an exponent that a 128-bit word can hold.
fn power_of_two(k: u32) -> (p: u128)
    requires
        k < 128,
    ensures
        p == pow2(k as nat),
{
    proof {
        lemma_shift_left_one(k);
    }
    1u128 << k
}

impl Real32 {
    /// Whether the sign bit is set.
    pub open spec fn negative(self) -> bool {
        self.bits >= 0x8000_0000
    }

    /// The eight exponent bits.
    pub open spec fn exponent_field(self) -> int {
        (self.bits as int / 0x80_0000) % 0x100
    }

    /// The twenty-three fraction bits.
    pub open spec fn fraction_field(self) -> int {
        self.bits as int % 0x80_0000
    }

    /// Whether the pattern is no number at all.
    pub open spec fn is_nan(self) -> bool {
        self.exponent_field() == 255 && self.fraction_field() != 0
    }

    /// Whether the pattern is one of the two infinities.
    pub open spec fn is_infinite(self) -> bool {
        self.exponent_field() == 255 && self.fraction_field() == 0
    }

    /// Whether the pattern is a number with a value: neither an infinity
    /// nor a NaN.
    pub open spec fn is_finite(self) -> bool {
        self.exponent_field() != 255
    }

    /// The significand with its implicit leading bit, where the pattern has one.
    pub open spec fn significand(self) -> int {
        if self.exponent_field() == 0 {
            self.fraction_field()
        } else {
            0x80_0000 + self.fraction_field()
        }
    }

    /// How many places the significand stands above the step 2^-149.
    pub open spec fn shift(self) -> nat {
        if self.exponent_field() == 0 {
            0
        } else {
            (self.exponent_field() - 1) as nat
        }
    }

    /// The absolute value in steps of 2^-149. For an infinity this is 2^277,
    /// above every finite magnitude.
    pub open spec fn magnitude(self) -> int {
        self.significand() * pow2(self.shift())
    }

    /// The value in steps of 2^-149: the number itself times 2^149.
    pub open spec fn scaled(self) -> int {
        if self.negative() {
            -self.magnitude()
        } else {
            self.magnitude()
        }
    }

    /// A magnitude is never below zero, and is zero only for the two zeros.
    pub proof fn lemma_magnitude_sign(self)
        ensures
            self.magnitude() >= 0,
            self.magnitude() == 0 <==> self.significand() == 0,
            self.significand() == 0 <==> self.bits % 0x8000_0000 == 0,
    {
        lemma_pow2_pos(self.shift());
        if self.significand() > 0 {
            lemma_mul_strictly_positive(self.significand(), pow2(self.shift()) as int);
        } else {
            assert(self.significand() * pow2(self.shift()) == 0) by (nonlinear_arith)
                requires
                    self.significand() == 0,
            ;
        }
    }

    /// Every finite magnitude lies below the one that stands for infinity.
    pub proof fn lemma_finite_below_infinity(self, top: Real32)
        requires
            self.is_finite(),
            top.is_infinite(),
        ensures
            self.magnitude() < top.magnitude(),
    {
        lemma_pow2_pos(self.shift());
        lemma_pow2_pos(253);
        lemma_pow2_unfold(254);
        if self.shift() < 253 {
            lemma_pow2_strictly_increases(self.shift(), 253);
        }
        lemma_mul_inequality(self.significand(), 0xFF_FFFF, pow2(self.shift()) as int);
        lemma_mul_inequality(pow2(self.shift()) as int, pow2(253) as int, 0xFF_FFFF);
        assert(0xFF_FFFF * pow2(self.shift()) == pow2(self.shift()) * 0xFF_FFFF) by (nonlinear_arith);
    }

    /// Adding to zero changes nothing: `ceil(0 + x)` is `ceil(x)`.
    pub proof fn lemma_ceil_sum_from_zero(self, zero: Real32)
        requires
            zero.bits == 0,
        ensures
            Self::spec_ceil_sum(zero, self) == self.spec_ceil(),
    {
        zero.lemma_magnitude_sign();
    }

    /// A larger coverage never gets a smaller opacity.
    pub proof fn lemma_alpha_monotonic(self, other: Real32)
        requires
            self.less_than(other),
        ensures
            self.spec_alpha() <= other.spec_alpha(),
    {
        self.lemma_magnitude_sign();
        other.lemma_magnitude_sign();
        if self.spec_is_positive() {
            if self.is_infinite() {
                if other.is_finite() {
                    other.lemma_finite_below_infinity(self);
                }
            } else if other.is_finite() {
                lemma_div_is_ordered(
                    510 * self.magnitude() + one(),
                    510 * other.magnitude() + one(),
                    2 * one(),
                );
            }
        }
    }

    /// The number with the given bit pattern.
    pub fn from_bits(bits: u32) -> (x: Real32)
        ensures
            x.bits == bits,
    {
        Real32 { bits }
    }

    /// The exponent bits, as a number.
    fn exponent_bits(self) -> (e: u32)
        ensures
            e == self.exponent_field(),
    {
        (self.bits / 0x80_0000) % 0x100
    }

    /// The fraction bits, as a number.
    fn fraction_bits(self) -> (f: u32)
        ensures
            f == self.fraction_field(),
    {
        self.bits % 0x80_0000
    }

    /// Whether the number is greater than zero (an infinity counts, a NaN
    /// does not).
    pub open spec fn spec_is_positive(self) -> bool {
        !self.is_nan() && self.scaled() > 0
    }

    /// Strictly less, as numbers: false whenever either side is a NaN.
    pub open spec fn less_than(self, other: Real32) -> bool {
        !self.is_nan() && !other.is_nan() && self.scaled() < other.scaled()
    }

    /// `ceil(a + b)` of the exact sum, brought into the range of `usize`:
    /// a NaN operand, or a sum that is no number or below zero, gives 0.
    pub open spec fn spec_ceil_sum(a: Real32, b: Real32) -> int {
        if a.is_nan() || b.is_nan() {
            0
        } else if (a.is_infinite() && a.negative()) || (b.is_infinite() && b.negative()) {
            0
        } else if a.is_infinite() || b.is_infinite() {
            usize::MAX as int
        } else {
            clamp_to_usize(ceil_div(a.scaled() + b.scaled(), one()))
        }
    }

    /// `ceil(x)` brought into the range of `usize`: a NaN, or a number below
    /// zero, gives 0.
    pub open spec fn spec_ceil(self) -> int {
        if self.is_nan() {
            0
        } else if self.is_infinite() {
            if self.negative() {
                0
            } else {
                usize::MAX as int
            }
        } else {
            clamp_to_usize(ceil_div(self.scaled(), one()))
        }
    }

    /// The opacity for a coverage: `255 * v` rounded to the nearest whole
    /// number, halves upward, and held at 255. Nothing positive gives 0.
    pub open spec fn spec_alpha(self) -> int {
        if !self.spec_is_positive() {
            0
        } else if self.is_infinite() {
            255
        } else {
            let rounded = (510 * self.magnitude() + one()) / (2 * one());
            if rounded > 255 {
                255
            } else {
                rounded
            }
        }
    }

    /// The whole part of the absolute value of a finite number.
    pub open spec fn spec_floor_abs(self) -> int {
        self.magnitude() / one()
    }

    /// Splits a finite magnitude into its whole part, the next 64 binary
    /// places, and what lies below them.
    fn parts(self) -> (p: Parts)
        requires
            self.is_finite(),
        ensures
            p.total() == self.magnitude(),
            p.frac < FRAC_RANGE,
            p.rest < GRAIN,
            p.rest != 0 ==> p.whole == 0 && p.frac < 0x80_0000,
    {
        let e = self.exponent_bits();
        let f = self.fraction_bits();
        let m: u128 = if e == 0 { f as u128 } else { 0x80_0000u128 + f as u128 };
        let k: u32 = if e == 0 { 0 } else { e - 1 };
        proof {
            lemma_pow2_landmarks();
        }
        if k >= 149 {
            let j: u32 = k - 149;
            let p = power_of_two(j);
            proof {
                if j < 104 {
                    lemma_pow2_strictly_increases(j as nat, 104);
                }
                lemma_mul_inequality(m as int, 0xFF_FFFF, p as int);
                lemma_mul_inequality(p as int, 0x100000000000000000000000000, 0xFF_FFFF);
                lemma_pow2_adds(j as nat, 149);
                lemma_mul_is_associative(m as int, p as int, one());
            }
            Parts { whole: m * p, frac: 0, rest: 0 }
        } else if k >= 85 {
            let j: u32 = k - 85;
            let p = power_of_two(j);
            proof {
                if j < 63 {
                    lemma_pow2_strictly_increases(j as nat, 63);
                }
                lemma_mul_inequality(m as int, 0xFF_FFFF, p as int);
                lemma_mul_inequality(p as int, 0x8000000000000000, 0xFF_FFFF);
                lemma_pow2_adds(j as nat, 85);
                lemma_mul_is_associative(m as int, p as int, GRAIN as int);
            }
            let y: u128 = m * p;
            Parts { whole: y / FRAC_RANGE, frac: (y % FRAC_RANGE) as u64, rest: 0 }
        } else {
            let p = power_of_two(k);
            proof {
                if k < 84 {
                    lemma_pow2_strictly_increases(k as nat, 84);
                }
                lemma_mul_inequality(m as int, 0xFF_FFFF, p as int);
                lemma_mul_inequality(p as int, 0x1000000000000000000000, 0xFF_FFFF);
            }
            let x: u128 = m * p;
            Parts { whole: 0, frac: (x / GRAIN) as u64, rest: x % GRAIN }
        }
    }

    /// Whether the pattern is no number.
    fn nan(self) -> (b: bool)
        ensures
            b == self.is_nan(),
    {
        self.exponent_bits() == 255 && self.fraction_bits() != 0
    }

    /// Whether the pattern is an infinity.
    fn infinite(self) -> (b: bool)
        ensures
            b == self.is_infinite(),
    {
        self.exponent_bits() == 255 && self.fraction_bits() == 0
    }

    /// Whether the number is neither an infinity nor a NaN.
    pub fn finite(self) -> (b: bool)
        ensures
            b == self.is_finite(),
    {
        self.exponent_bits() != 255
    }

    /// Whether the sign bit is set.
    fn sign(self) -> (b: bool)
        ensures
            b == self.negative(),
    {
        self.bits >= 0x8000_0000
    }

    /// Whether the sign bit is set.
    pub fn is_negative(self) -> (b: bool)
        ensures
            b == self.negative(),
    {
        self.sign()
    }

    /// Whether the number is greater than zero.
    #[verifier::when_used_as_spec(spec_is_positive)]
    pub fn is_positive(self) -> (b: bool)
        ensures
            b == self.spec_is_positive(),
    {
        proof {
            self.lemma_magnitude_sign();
        }
        0 < self.bits && self.bits <= 0x7F80_0000
    }

    /// The whole part of the absolute value.
    pub fn floor_abs(self) -> (n: u128)
        requires
            self.is_finite(),
        ensures
            n == self.spec_floor_abs(),
    {
        let p = self.parts();
        proof {
            lemma_fundamental_div_mod_converse(
                self.magnitude(),
                one(),
                p.whole as int,
                p.frac * GRAIN + p.rest,
            );
        }
        p.whole
    }

    /// The opacity for a coverage: `255 * v`, rounded to the nearest whole
    /// number and held at 255.
    pub fn alpha(self) -> (a: u8)
        ensures
            a == self.spec_alpha(),
    {
        if !self.is_positive() {
            return 0;
        }
        if self.infinite() {
            return 255;
        }
        let p = self.parts();
        if p.whole >= 1 {
            255
        } else if p.rest != 0 {
            0
        } else {
            let n: u128 = (255 * (p.frac as u128) + 0x8000000000000000) / FRAC_RANGE;
            proof {
                let r = (255 * (p.frac as int) + 0x8000000000000000) % (FRAC_RANGE as int);
                lemma_fundamental_div_mod_converse(
                    510 * self.magnitude() + one(),
                    2 * one(),
                    n as int,
                    2 * GRAIN * r,
                );
            }
            n as u8
        }
    }

    /// Adds two magnitudes that have the same sign and rounds the sum up.
    fn ceil_of_sum(pa: Parts, pb: Parts) -> (n: usize)
        requires
            pa.frac < FRAC_RANGE,
            pa.rest < GRAIN,
            pb.frac < FRAC_RANGE,
            pb.rest < GRAIN,
        ensures
            n == clamp_to_usize(ceil_div(pa.total() + pb.total(), one())),
    {
        let rs: u128 = pa.rest + pb.rest;
        let rest: u128 = rs % GRAIN;
        let fs: u128 = pa.frac as u128 + pb.frac as u128 + rs / GRAIN;
        let frac: u128 = fs % FRAC_RANGE;
        let bump: u128 = if frac != 0 || rest != 0 { 1 } else { 0 };
        let carry: u128 = fs / FRAC_RANGE + bump;
        proof {
            lemma_fundamental_div_mod_converse(
                pa.total() + pb.total(),
                one(),
                pa.whole + pb.whole + fs / FRAC_RANGE,
                frac * GRAIN + rest,
            );
        }
        match pa.whole.checked_add(pb.whole) {
            None => usize::MAX,
            Some(w) => match w.checked_add(carry) {
                None => usize::MAX,
                Some(t) => if t > usize::MAX as u128 { usize::MAX } else { t as usize },
            },
        }
    }

    /// Takes the magnitude `pb` from the magnitude `pa` and rounds the
    /// difference up; a difference below zero gives 0.
    fn ceil_of_difference(pa: Parts, pb: Parts) -> (n: usize)
        requires
            pa.frac < FRAC_RANGE,
            pa.rest < GRAIN,
            pb.frac < FRAC_RANGE,
            pb.rest < GRAIN,
        ensures
            n == clamp_to_usize(ceil_div(pa.total() - pb.total(), one())),
    {
        if pa.whole < pb.whole {
            proof {
                let d = pa.total() - pb.total();
                assert(d < 0);
                assert(d / one() < 0);
            }
            return 0;
        }
        let w: u128 = pa.whole - pb.whole;
        let bump: bool = pa.frac > pb.frac || (pa.frac == pb.frac && pa.rest > pb.rest);
        proof {
            let d = pa.total() - pb.total();
            let t = (pa.frac - pb.frac) * GRAIN + (pa.rest - pb.rest);
            assert(d == w * one() + t);
            if t >= 0 {
                lemma_fundamental_div_mod_converse(d, one(), w as int, t);
            } else {
                lemma_fundamental_div_mod_converse(d, one(), w - 1, one() + t);
            }
        }
        if bump {
            match w.checked_add(1) {
                None => usize::MAX,
                Some(t) => if t > usize::MAX as u128 { usize::MAX } else { t as usize },
            }
        } else if w > usize::MAX as u128 {
            usize::MAX
        } else {
            w as usize
        }
    }

    /// `ceil(a + b)`, the sum taken exactly, as a length.
    pub fn ceil_sum(a: Real32, b: Real32) -> (n: usize)
        ensures
            n == Self::spec_ceil_sum(a, b),
    {
        if a.nan() || b.nan() {
            return 0;
        }
        if (a.infinite() && a.sign()) || (b.infinite() && b.sign()) {
            return 0;
        }
        if a.infinite() || b.infinite() {
            return usize::MAX;
        }
        let pa = a.parts();
        let pb = b.parts();
        if a.sign() {
            if b.sign() {
                proof {
                    let s = a.scaled() + b.scaled();
                    assert(s <= 0);
                    assert(s / one() <= 0);
                    assert(s % one() != 0 ==> s / one() < 0);
                }
                0
            } else {
                Self::ceil_of_difference(pb, pa)
            }
        } else if b.sign() {
            Self::ceil_of_difference(pa, pb)
        } else {
            Self::ceil_of_sum(pa, pb)
        }
    }
}

} // verus!

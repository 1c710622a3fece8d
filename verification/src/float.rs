//! IEEE-754 binary32 and binary64 values carried by their encodings.
//!
//! The monitor reads percentages as `f32` and load averages as `f64`. The
//! library keeps each such number as its exact bit pattern, so nothing is
//! lost, and states every comparison and rounding it makes over that pattern.
use vstd::arithmetic::power2::{lemma2_to64, lemma_pow2_adds, lemma_pow2_strictly_increases, lemma_pow2_unfold, pow2};
use vstd::prelude::*;

use crate::text::{decimal, digit_char, digit_char_exec, push_char, push_decimal};

verus! {

/// An `f32` held by its bit pattern (as `f32::to_bits` gives it).
///
/// Its derived `==` compares bit patterns, not numbers: a NaN equals itself
/// and `0.0` differs from `-0.0`. Numeric comparisons are `ge` and `le`.
#[derive(Clone, Copy, Debug, PartialEq, Eq, Structural)]
pub struct Float32 {
    pub bits: u32,
}

/// An `f64` held by its bit pattern (as `f64::to_bits` gives it); its
/// derived `==` compares bit patterns.
#[derive(Clone, Copy, Debug, PartialEq, Eq, Structural)]
pub struct Float64 {
    pub bits: u64,
}

/// Sign bit of a binary32 encoding.
pub open spec fn f32_sign(bits: u32) -> bool {
    bits >= 0x8000_0000
}

/// Biased exponent field (8 bits).
pub open spec fn f32_exponent(bits: u32) -> nat {
    ((bits / 0x80_0000) % 256) as nat
}

/// Fraction field (23 bits).
pub open spec fn f32_fraction(bits: u32) -> nat {
    (bits % 0x80_0000) as nat
}

/// The encoding without its sign bit.
pub open spec fn f32_magnitude_bits(bits: u32) -> nat {
    (bits % 0x8000_0000) as nat
}

pub open spec fn f32_is_nan(bits: u32) -> bool {
    f32_exponent(bits) == 255 && f32_fraction(bits) != 0
}

pub open spec fn f32_is_infinite(bits: u32) -> bool {
    f32_exponent(bits) == 255 && f32_fraction(bits) == 0
}

/// Position of a non-NaN value on the real line, up to a monotone scale:
/// binary32 magnitudes are ordered as their encodings, and both zeros map to 0.
pub open spec fn f32_order_key(bits: u32) -> int {
    if f32_sign(bits) {
        -(f32_magnitude_bits(bits) as int)
    } else {
        f32_magnitude_bits(bits) as int
    }
}

/// `a >= b` as `f32` compares: false when either side is NaN.
pub open spec fn f32_ge(a: u32, b: u32) -> bool {
    !f32_is_nan(a) && !f32_is_nan(b) && f32_order_key(a) >= f32_order_key(b)
}

/// `a <= b` as `f32` compares: false when either side is NaN.
pub open spec fn f32_le(a: u32, b: u32) -> bool {
    !f32_is_nan(a) && !f32_is_nan(b) && f32_order_key(a) <= f32_order_key(b)
}

/// The key of `f32::total_cmp` (IEEE-754 totalOrder): negative encodings
/// in reverse, below every non-negative one, `-0.0` just below `+0.0`.
pub open spec fn f32_total_key(bits: u32) -> int {
    if f32_sign(bits) {
        -(f32_magnitude_bits(bits) as int) - 1
    } else {
        bits as int
    }
}

/// The integer significand of a finite binary32 value (with the implicit
/// leading bit of a normal number).
pub open spec fn f32_significand(bits: u32) -> nat {
    if f32_exponent(bits) == 0 {
        f32_fraction(bits)
    } else {
        f32_fraction(bits) + 0x80_0000
    }
}

/// The power of two that scales the significand: the magnitude of a finite
/// value is `f32_significand(bits) * 2^f32_scale(bits)`.
pub open spec fn f32_scale(bits: u32) -> int {
    if f32_exponent(bits) == 0 {
        -149
    } else {
        f32_exponent(bits) - 150
    }
}

/// The magnitude of a finite value in units of `2^-149`, the smallest
/// subnormal: a whole number for every finite value.
pub open spec fn f32_units(bits: u32) -> nat {
    f32_significand(bits) * pow2((f32_scale(bits) + 149) as nat)
}

/// The real number a finite value stands for, in units of `2^-149`.
pub open spec fn f32_signed_units(bits: u32) -> int {
    if f32_sign(bits) {
        -(f32_units(bits) as int)
    } else {
        f32_units(bits) as int
    }
}

/// `a >= b` on the extended reals that two non-NaN values stand for
/// (infinities at either end); false when either is NaN.
pub open spec fn f32_value_ge(a: u32, b: u32) -> bool {
    !f32_is_nan(a) && !f32_is_nan(b) && if f32_is_infinite(b) {
        if f32_sign(b) {
            true
        } else {
            f32_is_infinite(a) && !f32_sign(a)
        }
    } else if f32_is_infinite(a) {
        !f32_sign(a)
    } else {
        f32_signed_units(a) >= f32_signed_units(b)
    }
}

proof fn lemma_units_increase(a: u32, b: u32)
    requires
        f32_exponent(a) < 255,
        f32_exponent(b) < 255,
        f32_magnitude_bits(a) < f32_magnitude_bits(b),
    ensures
        f32_units(a) < f32_units(b),
{
    let ea = f32_exponent(a);
    let eb = f32_exponent(b);
    let fa = f32_fraction(a);
    let fb = f32_fraction(b);
    assert(f32_magnitude_bits(a) == ea * 0x80_0000 + fa);
    assert(f32_magnitude_bits(b) == eb * 0x80_0000 + fb);
    if ea == eb {
        let k = pow2((f32_scale(a) + 149) as nat);
        vstd::arithmetic::power2::lemma_pow2_pos((f32_scale(a) + 149) as nat);
        assert(f32_significand(a) * k < f32_significand(b) * k) by (nonlinear_arith)
            requires
                f32_significand(a) < f32_significand(b),
                k > 0,
        ;
    } else {
        assert(ea < eb);
        lemma2_to64();
        let kb = (eb - 1) as nat;
        let ub = f32_units(b);
        assert(ub == (fb + 0x80_0000) * pow2(kb));
        vstd::arithmetic::power2::lemma_pow2_pos(kb);
        assert(ub >= 0x80_0000 * pow2(kb)) by (nonlinear_arith)
            requires
                ub == (fb + 0x80_0000) * pow2(kb),
                pow2(kb) > 0,
        ;
        if ea == 0 {
            assert(f32_units(a) == fa * pow2(0));
            assert(0x80_0000 * pow2(kb) >= 0x80_0000) by (nonlinear_arith)
                requires
                    pow2(kb) > 0,
            ;
        } else {
            let ka = (ea - 1) as nat;
            let ua = f32_units(a);
            assert(ua == (fa + 0x80_0000) * pow2(ka));
            lemma_pow2_unfold(ka + 1);
            vstd::arithmetic::power2::lemma_pow2_pos(ka);
            if ka + 1 < kb {
                lemma_pow2_strictly_increases(ka + 1, kb);
            }
            assert(ua < 0x80_0000 * pow2(ka + 1)) by (nonlinear_arith)
                requires
                    ua == (fa + 0x80_0000) * pow2(ka),
                    fa < 0x80_0000,
                    pow2(ka + 1) == 2 * pow2(ka),
                    pow2(ka) > 0,
            ;
            assert(0x80_0000 * pow2(ka + 1) <= 0x80_0000 * pow2(kb)) by (nonlinear_arith)
                requires
                    pow2(ka + 1) <= pow2(kb),
            ;
        }
    }
}

proof fn lemma_units_zero(a: u32)
    requires
        f32_exponent(a) < 255,
    ensures
        (f32_units(a) == 0) == (f32_magnitude_bits(a) == 0),
{
    assert(f32_magnitude_bits(a) == f32_exponent(a) * 0x80_0000 + f32_fraction(a));
    let k = (f32_scale(a) + 149) as nat;
    vstd::arithmetic::power2::lemma_pow2_pos(k);
    assert((f32_significand(a) * pow2(k) == 0) == (f32_significand(a) == 0)) by (nonlinear_arith)
        requires
            pow2(k) > 0,
    ;
}

/// The comparisons of `f32` follow the real values: for values that are
/// not NaN, ordering by `f32_order_key` is ordering by the number (with
/// `-0.0 == 0.0` and the infinities at either end).
pub proof fn lemma_f32_order_is_value_order(a: u32, b: u32)
    ensures
        f32_ge(a, b) == f32_value_ge(a, b),
        f32_le(a, b) == f32_value_ge(b, a),
{
    if !f32_is_nan(a) && !f32_is_nan(b) {
        assert(f32_magnitude_bits(a) == f32_exponent(a) * 0x80_0000 + f32_fraction(a));
        assert(f32_magnitude_bits(b) == f32_exponent(b) * 0x80_0000 + f32_fraction(b));
        if !f32_is_infinite(a) && !f32_is_infinite(b) {
            lemma_units_zero(a);
            lemma_units_zero(b);
            if f32_magnitude_bits(a) < f32_magnitude_bits(b) {
                lemma_units_increase(a, b);
            } else if f32_magnitude_bits(b) < f32_magnitude_bits(a) {
                lemma_units_increase(b, a);
            } else {
                assert(f32_exponent(a) == f32_exponent(b) && f32_fraction(a) == f32_fraction(b));
            }
        }
    }
}

/// The magnitude of a finite value as the fraction `num / den`.
pub open spec fn f32_magnitude(bits: u32) -> (nat, nat) {
    if f32_scale(bits) >= 0 {
        (f32_significand(bits) * pow2(f32_scale(bits) as nat), 1)
    } else {
        (f32_significand(bits), pow2((-f32_scale(bits)) as nat))
    }
}

/// `p / q` rounded to the nearest integer, halves away from zero.
pub open spec fn round_half_up(p: nat, q: nat) -> nat
    recommends
        q > 0,
{
    (2 * p + q) / (2 * q)
}

/// `p / q` rounded to the nearest integer, halves to the even neighbour.
pub open spec fn round_half_even(p: nat, q: nat) -> nat
    recommends
        q > 0,
{
    let f = p / q;
    let r = p % q;
    if 2 * r > q || (2 * r == q && f % 2 == 1) {
        f + 1
    } else {
        f
    }
}

/// `2^e` for `e < 128`.
pub fn pow2_u128(e: u32) -> (r: u128)
    requires
        e < 128,
    ensures
        r == pow2(e as nat),
{
    proof {
        lemma2_to64();
        lemma_pow2_adds(32, 31);
        lemma_pow2_adds(64, 63);
    }
    let mut r: u128 = 1;
    let mut i: u32 = 0;
    while i < e
        invariant
            i <= e < 128,
            r == pow2(i as nat),
            pow2(127) == 0x8000_0000_0000_0000_0000_0000_0000_0000,
        decreases e - i,
    {
        proof {
            lemma_pow2_strictly_increases(i as nat, 127);
            lemma_pow2_unfold((i + 1) as nat);
        }
        r = r * 2;
        i = i + 1;
    }
    r
}

/// What `value.clamp(0.0, 100.0).round() as u64` gives: 0 for NaN and for
/// negative values, 100 from 100 up, otherwise the value rounded to the
/// nearest integer, halves up.
pub open spec fn percent_level(bits: u32) -> nat {
    if f32_is_nan(bits) || f32_sign(bits) {
        0
    } else if f32_is_infinite(bits) {
        100
    } else {
        let (n, d) = f32_magnitude(bits);
        if n > 100 * d {
            100
        } else {
            round_half_up(n, d)
        }
    }
}

/// The magnitude in tenths, rounded as `{:.1}` rounds: to the nearest, halves
/// to even.
pub open spec fn f32_tenths(bits: u32) -> nat {
    let (n, d) = f32_magnitude(bits);
    round_half_even(10 * n, d)
}

/// `t` tenths written with one decimal: `12.5` for 125.
pub open spec fn one_decimal(t: nat) -> Seq<char> {
    decimal(t / 10).push('.').push(digit_char(t % 10))
}

/// What `format!("{:.1}", value)` writes for the `f32` `value`: `NaN`,
/// `inf` or the magnitude with one decimal, with a `-` for a set sign bit
/// (so `-0.0` for negative values that round to zero).
pub open spec fn f32_text_one_decimal(bits: u32) -> Seq<char> {
    if f32_is_nan(bits) {
        seq!['N', 'a', 'N']
    } else {
        let sign = if f32_sign(bits) {
            seq!['-']
        } else {
            Seq::empty()
        };
        if f32_is_infinite(bits) {
            sign + seq!['i', 'n', 'f']
        } else {
            sign + one_decimal(f32_tenths(bits))
        }
    }
}

proof fn lemma_round_half_even_small(p: nat, d: nat)
    requires
        2 * p < d,
    ensures
        round_half_even(p, d) == 0,
{
    assert(p / d == 0 && p % d == p) by (nonlinear_arith)
        requires
            2 * p < d,
    ;
}

proof fn lemma_round_half_even_whole(p: nat)
    ensures
        round_half_even(p, 1) == p,
{
    assert(p / 1 == p && p % 1 == 0) by (nonlinear_arith);
}

proof fn lemma_round_half_up_small(n: nat, d: nat)
    requires
        d > 0,
        2 * n < d,
    ensures
        round_half_up(n, d) == 0,
{
    assert((2 * n + d) / (2 * d) == 0) by (nonlinear_arith)
        requires
            d > 0,
            2 * n < d,
    ;
}

proof fn lemma_round_half_up_at_most(n: nat, d: nat, m: nat)
    requires
        d > 0,
        n <= m * d,
    ensures
        round_half_up(n, d) <= m,
{
    assert((2 * n + d) / (2 * d) <= m) by (nonlinear_arith)
        requires
            d > 0,
            n <= m * d,
    {
        assert(2 * n + d < (m + 1) * (2 * d));
    }
}

impl Float32 {
    pub fn from_bits(bits: u32) -> (r: Float32)
        ensures
            r.bits == bits,
    {
        Float32 { bits }
    }

    pub fn to_bits(self) -> (r: u32)
        ensures
            r == self.bits,
    {
        self.bits
    }

    pub fn is_nan(self) -> (r: bool)
        ensures
            r == f32_is_nan(self.bits),
    {
        let exponent: u32 = self.bits / 0x80_0000 % 256;
        let fraction: u32 = self.bits % 0x80_0000;
        exponent == 255 && fraction != 0
    }

    /// The comparison key of `f32_order_key`.
    pub fn order_key(self) -> (r: i64)
        ensures
            r == f32_order_key(self.bits),
    {
        let magnitude: u32 = self.bits % 0x8000_0000;
        if self.bits >= 0x8000_0000 {
            -(magnitude as i64)
        } else {
            magnitude as i64
        }
    }

    /// `self >= other` with `f32` semantics.
    pub fn ge(self, other: Float32) -> (r: bool)
        ensures
            r == f32_ge(self.bits, other.bits),
    {
        !self.is_nan() && !other.is_nan() && self.order_key() >= other.order_key()
    }

    /// `self <= other` with `f32` semantics.
    pub fn le(self, other: Float32) -> (r: bool)
        ensures
            r == f32_le(self.bits, other.bits),
    {
        !self.is_nan() && !other.is_nan() && self.order_key() <= other.order_key()
    }

    /// The key by which `f32::total_cmp` orders values.
    pub fn total_key(self) -> (r: i64)
        ensures
            r == f32_total_key(self.bits),
    {
        let magnitude: u32 = self.bits % 0x8000_0000;
        if self.bits >= 0x8000_0000 {
            -(magnitude as i64) - 1
        } else {
            self.bits as i64
        }
    }
}

impl Float32 {
    /// The level `value.clamp(0.0, 100.0).round() as u64` gives.
    pub fn percent_level(self) -> (r: u64)
        ensures
            r == percent_level(self.bits),
    {
        let bits = self.bits;
        if self.is_nan() || bits >= 0x8000_0000 {
            return 0;
        }
        let exponent: u32 = bits / 0x80_0000;
        let fraction: u32 = bits % 0x80_0000;
        if exponent == 255 {
            return 100;
        }
        let significand: u128 = if exponent == 0 {
            fraction as u128
        } else {
            fraction as u128 + 0x80_0000
        };
        if exponent >= 134 {
            proof {
                let (n, d) = f32_magnitude(bits);
                if exponent >= 150 {
                    let e = (exponent - 150) as nat;
                    vstd::arithmetic::power2::lemma_pow2_pos(e);
                    assert(significand * pow2(e) >= significand) by (nonlinear_arith)
                        requires
                            pow2(e) >= 1,
                    ;
                } else {
                    let e = (150 - exponent) as nat;
                    lemma2_to64();
                    if e < 16 {
                        lemma_pow2_strictly_increases(e, 16);
                    }
                }
            }
            return 100;
        }
        let shift: u32 = if exponent == 0 {
            149
        } else {
            150 - exponent
        };
        if shift >= 64 {
            proof {
                lemma2_to64();
                if shift > 64 {
                    lemma_pow2_strictly_increases(64, shift as nat);
                }
                lemma_round_half_up_small(significand as nat, pow2(shift as nat));
            }
            return 0;
        }
        let d = pow2_u128(shift);
        proof {
            lemma2_to64();
            lemma_pow2_strictly_increases(shift as nat, 64);
        }
        if significand > 100 * d {
            return 100;
        }
        proof {
            lemma_round_half_up_at_most(significand as nat, d as nat, 100);
        }
        ((2 * significand + d) / (2 * d)) as u64
    }
}

/// Appends `format!("{:.1}", value)` for the `f32` `value`.
pub fn push_one_decimal(out: &mut String, value: Float32)
    ensures
        final(out)@ == old(out)@ + f32_text_one_decimal(value.bits),
{
    let bits = value.bits;
    if value.is_nan() {
        push_char(out, 'N');
        push_char(out, 'a');
        push_char(out, 'N');
        proof {
            assert(old(out)@.push('N').push('a').push('N') =~= old(out)@ + seq!['N', 'a', 'N']);
        }
        return;
    }
    let ghost sign = if f32_sign(bits) {
        seq!['-']
    } else {
        Seq::<char>::empty()
    };
    let ghost start = old(out)@;
    if bits >= 0x8000_0000 {
        push_char(out, '-');
    }
    proof {
        assert(out@ =~= start + sign);
    }
    let exponent: u32 = bits / 0x80_0000 % 256;
    let fraction: u32 = bits % 0x80_0000;
    if exponent == 255 {
        push_char(out, 'i');
        push_char(out, 'n');
        push_char(out, 'f');
        proof {
            assert(out@ =~= start + (sign + seq!['i', 'n', 'f']));
        }
        return;
    }
    let significand: u128 = if exponent == 0 {
        fraction as u128
    } else {
        fraction as u128 + 0x80_0000
    };
    let ghost tenths = f32_tenths(bits);
    let ghost before = out@;
    if exponent >= 150 {
        let e: u32 = exponent - 150;
        let scale = pow2_u128(e);
        proof {
            lemma2_to64();
            lemma_pow2_adds(32, 8);
            lemma_pow2_adds(64, 40);
            if e < 104 {
                lemma_pow2_strictly_increases(e as nat, 104);
            }
            assert(significand * scale < 0x1_0000_0000_0000_0000_0000_0000_0000_0000) by (
            nonlinear_arith)
                requires
                    significand < 0x100_0000,
                    scale <= 0x100_0000_0000_0000_0000_0000_0000,
            ;
            lemma_round_half_even_whole((10 * (significand * scale)) as nat);
            assert(tenths == 10 * (significand * scale));
            assert(tenths / 10 == significand * scale && tenths % 10 == 0);
        }
        push_decimal(out, significand * scale);
        push_char(out, '.');
        push_char(out, '0');
        proof {
            assert(out@ =~= before + one_decimal(tenths));
            assert(out@ =~= start + (sign + one_decimal(tenths)));
        }
        return;
    }
    let shift: u32 = if exponent == 0 {
        149
    } else {
        150 - exponent
    };
    if shift >= 64 {
        proof {
            lemma2_to64();
            if shift > 64 {
                lemma_pow2_strictly_increases(64, shift as nat);
            }
            lemma_round_half_even_small(10 * significand as nat, pow2(shift as nat));
            assert(tenths == 0);
        }
        push_char(out, '0');
        push_char(out, '.');
        push_char(out, '0');
        proof {
            assert(decimal(0) =~= seq!['0']);
            assert(out@ =~= before + one_decimal(tenths));
            assert(out@ =~= start + (sign + one_decimal(tenths)));
        }
        return;
    }
    let d = pow2_u128(shift);
    proof {
        lemma2_to64();
        lemma_pow2_strictly_increases(shift as nat, 64);
        vstd::arithmetic::power2::lemma_pow2_pos(shift as nat);
    }
    let p: u128 = 10 * significand;
    let f = p / d;
    let r = p % d;
    let t: u128 = if 2 * r > d || (2 * r == d && f % 2 == 1) {
        f + 1
    } else {
        f
    };
    assert(t == tenths);
    push_decimal(out, t / 10);
    push_char(out, '.');
    push_char(out, digit_char_exec(t % 10));
    proof {
        assert(out@ =~= before + one_decimal(tenths));
        assert(out@ =~= start + (sign + one_decimal(tenths)));
    }
}

impl Float64 {
    pub fn from_bits(bits: u64) -> (r: Float64)
        ensures
            r.bits == bits,
    {
        Float64 { bits }
    }

    pub fn to_bits(self) -> (r: u64)
        ensures
            r == self.bits,
    {
        self.bits
    }
}

} // verus!

//! Quantization of normalized amplitudes to fixed-point samples.
//!
//! A finite single-precision float is an exact dyadic rational, so its
//! value scaled by 2^149 is an exact integer. Quantization to an N-bit
//! signed target follows the bias-corrected rounding policy
//! `round(x * (MAX + 0.5) - 0.5)`, with ties rounded upward; that is
//! exactly `floor(x * (MAX + 0.5))`, which this module computes with
//! integer arithmetic on the fields of the bit pattern. Out-of-range
//! amplitudes saturate; a NaN quantizes to zero.

use vstd::prelude::*;
use vstd::arithmetic::power2::{
    pow2, lemma_pow2_adds, lemma_pow2_strictly_increases, lemma_pow2_pos, lemma2_to64,
    lemma2_to64_rest,
};
use vstd::arithmetic::div_mod::{
    lemma_fundamental_div_mod, lemma_fundamental_div_mod_converse_div, lemma_div_is_ordered,
    lemma_div_multiples_vanish, lemma_basic_div, lemma_div_pos_is_pos,
};
use vstd::arithmetic::mul::{lemma_mul_inequality, lemma_mul_nonnegative};
use vstd::bits::{lemma_u64_shr_is_div, lemma_u64_shl_is_mul, lemma_u64_pow2_no_overflow};

verus! {

// ---------------------------------------------------------------------
// Fields of an IEEE-754 single-precision bit pattern.
// ---------------------------------------------------------------------

/// The sign bit is set (the value is negative, a negative zero included).
pub open spec fn f32_sign(b: u32) -> bool {
    (b >> 31) == 1
}

/// The biased exponent field.
pub open spec fn f32_exp(b: u32) -> u32 {
    (b >> 23) & 0xFF
}

/// The fraction field.
pub open spec fn f32_frac(b: u32) -> u32 {
    b & 0x7F_FFFF
}

/// The bit pattern encodes a NaN.
pub open spec fn f32_is_nan(b: u32) -> bool {
    f32_exp(b) == 255 && f32_frac(b) != 0
}

/// The bit pattern encodes an infinity.
pub open spec fn f32_is_inf(b: u32) -> bool {
    f32_exp(b) == 255 && f32_frac(b) == 0
}

/// The significand with the hidden bit made explicit; subnormals have none.
pub open spec fn f32_mant(b: u32) -> nat {
    if f32_exp(b) == 0 {
        f32_frac(b) as nat
    } else {
        (f32_frac(b) + 0x80_0000) as nat
    }
}

/// The effective exponent field: subnormals share the minimum exponent.
pub open spec fn f32_e1(b: u32) -> nat {
    if f32_exp(b) == 0 {
        1
    } else {
        f32_exp(b) as nat
    }
}

/// The numeric value of a finite bit pattern, scaled by 2^149:
/// an exact integer for every finite single-precision float.
pub open spec fn f32_scaled(b: u32) -> int {
    if f32_sign(b) {
        -(f32_mant(b) * pow2((f32_e1(b) - 1) as nat)) as int
    } else {
        (f32_mant(b) * pow2((f32_e1(b) - 1) as nat)) as int
    }
}

// ---------------------------------------------------------------------
// The quantization policy.
// ---------------------------------------------------------------------

/// `x` forced into `[lo, hi]`.
pub open spec fn clamp(x: int, lo: int, hi: int) -> int {
    if x < lo {
        lo
    } else if x > hi {
        hi
    } else {
        x
    }
}

/// `floor(value(b) * (max + 1/2))` for a finite bit pattern `b`:
/// the bias-corrected quantization before saturation.
pub open spec fn quant_floor(b: u32, max: int) -> int {
    (f32_scaled(b) * (2 * max + 1)) / (pow2(150) as int)
}

/// Quantization of `b` to a signed target with range `[-max - 1, max]`:
/// NaN goes to zero, everything else saturates into the range.
pub open spec fn quant_spec(b: u32, max: int) -> int {
    if f32_is_nan(b) {
        0
    } else if f32_is_inf(b) {
        if f32_sign(b) {
            -max - 1
        } else {
            max
        }
    } else {
        clamp(quant_floor(b, max), -max - 1, max)
    }
}

/// Quantization to a signed 16-bit sample.
pub open spec fn quant16(b: u32) -> int {
    quant_spec(b, 0x7FFF)
}

/// Quantization to a signed 32-bit sample.
pub open spec fn quant32(b: u32) -> int {
    quant_spec(b, 0x7FFF_FFFF)
}

/// Quantization to a signed 24-bit sample: the 32-bit result with its
/// least significant byte dropped by an arithmetic shift.
pub open spec fn quant24(b: u32) -> int {
    quant32(b) / 256
}

// ---------------------------------------------------------------------
// Arithmetic facts used by the implementation.
// ---------------------------------------------------------------------

/// Dividing a negated non-negative numerator rounds the other way:
/// `(-a) / d` is the negated rounded-up quotient of `a / d`.
proof fn lemma_neg_div(a: int, d: int)
    requires
        0 <= a,
        0 < d,
    ensures
        (-a) / d == -((a + d - 1) / d),
{
    lemma_fundamental_div_mod(a, d);
    let q = a / d;
    let r = a % d;
    assert(q * d == d * q) by (nonlinear_arith);
    if r == 0 {
        assert((-q) * d == -(q * d)) by (nonlinear_arith);
        lemma_fundamental_div_mod_converse_div(-a, d, -q, 0);
        lemma_fundamental_div_mod_converse_div(a + d - 1, d, q, d - 1);
    } else {
        assert((-q - 1) * d == -(q * d) - d) by (nonlinear_arith);
        assert((q + 1) * d == q * d + d) by (nonlinear_arith);
        lemma_fundamental_div_mod_converse_div(-a, d, -q - 1, d - r);
        lemma_fundamental_div_mod_converse_div(a + d - 1, d, q + 1, r - 1);
    }
}

/// A common power-of-two factor cancels out of a floor division,
/// for the plain and for the negated numerator.
proof fn lemma_quant_floor_shift(b: u32, max: int, a: int, sh: nat)
    requires
        f32_exp(b) < 255,
        0 < max,
        a == f32_mant(b) * (2 * max + 1),
        f32_e1(b) <= 151,
        sh == 151 - f32_e1(b),
    ensures
        !f32_sign(b) ==> quant_floor(b, max) == a / (pow2(sh) as int),
        f32_sign(b) ==> quant_floor(b, max) == -((a + pow2(sh) - 1) / (pow2(sh) as int)),
{
    let j = (f32_e1(b) - 1) as nat;
    let m = f32_mant(b) as int;
    let kk = 2 * max + 1;
    let d = pow2(sh) as int;
    lemma_pow2_pos(j);
    lemma_pow2_pos(sh);
    lemma_pow2_pos(150);
    lemma_pow2_adds(j, sh);
    assert(pow2(j) * pow2(sh) == pow2(150));
    lemma_mul_nonnegative(m, kk);
    lemma_fundamental_div_mod(a, d);
    let p = a / d;
    let r = a % d;
    lemma_div_pos_is_pos(a, d);
    // a * 2^j == p * 2^150 + r * 2^j, with 0 <= r * 2^j < 2^150
    assert(a * pow2(j) == p * (pow2(150) as int) + r * pow2(j)) by (nonlinear_arith)
        requires
            a == p * d + r,
            pow2(j) * pow2(sh) == pow2(150),
            d == pow2(sh) as int,
    ;
    lemma_mul_nonnegative(r, pow2(j) as int);
    assert(r * pow2(j) < pow2(150)) by (nonlinear_arith)
        requires
            r < d,
            d == pow2(sh) as int,
            0 <= r,
            0 < pow2(j),
            pow2(j) * pow2(sh) == pow2(150),
    ;
    // the scaled product is +/- (a * 2^j)
    assert(f32_mant(b) * pow2(j) * kk == a * pow2(j)) by (nonlinear_arith)
        requires
            a == f32_mant(b) * kk,
    ;
    if !f32_sign(b) {
        assert(f32_scaled(b) * kk == a * pow2(j)) by (nonlinear_arith)
            requires
                f32_scaled(b) == f32_mant(b) * pow2(j),
                f32_mant(b) * pow2(j) * kk == a * pow2(j),
        ;
        lemma_fundamental_div_mod_converse_div(
            a * pow2(j),
            pow2(150) as int,
            p,
            r * pow2(j),
        );
    } else {
        assert(f32_scaled(b) * kk == -(a * pow2(j))) by (nonlinear_arith)
            requires
                f32_scaled(b) == -(f32_mant(b) * pow2(j)),
                f32_mant(b) * pow2(j) * kk == a * pow2(j),
        ;
        let c = (a + d - 1) / d;
        if r == 0 {
            lemma_fundamental_div_mod_converse_div(a + d - 1, d, p, d - 1);
            assert(c == p);
            assert(-(a * pow2(j)) == (-p) * (pow2(150) as int) + 0) by (nonlinear_arith)
                requires
                    a * pow2(j) == p * (pow2(150) as int) + r * pow2(j),
                    r == 0,
            ;
            lemma_fundamental_div_mod_converse_div(-(a * pow2(j)), pow2(150) as int, -p, 0);
        } else {
            assert((p + 1) * d == p * d + d) by (nonlinear_arith);
            lemma_fundamental_div_mod_converse_div(a + d - 1, d, p + 1, r - 1);
            assert(c == p + 1);
            assert(-(a * pow2(j)) == (-p - 1) * (pow2(150) as int) + (pow2(150) - r * pow2(j)))
                by (nonlinear_arith)
                requires
                    a * pow2(j) == p * (pow2(150) as int) + r * pow2(j),
            ;
            assert(0 < r * pow2(j)) by (nonlinear_arith)
                requires
                    0 < r,
                    0 < pow2(j),
            ;
            lemma_fundamental_div_mod_converse_div(
                -(a * pow2(j)),
                pow2(150) as int,
                -p - 1,
                pow2(150) - r * pow2(j),
            );
        }
    }
}

/// An amplitude of magnitude two or more saturates: it quantizes to the
/// extreme value of its sign.
proof fn lemma_quant_sat(b: u32, max: int)
    requires
        f32_exp(b) < 255,
        128 <= f32_e1(b),
        f32_exp(b) != 0,
        0 < max,
    ensures
        !f32_sign(b) ==> quant_spec(b, max) == max,
        f32_sign(b) ==> quant_spec(b, max) == -max - 1,
{
    let j = (f32_e1(b) - 1) as nat;
    let m = f32_mant(b) as int;
    let kk = 2 * max + 1;
    let mag = m * pow2(j);
    assert(m >= 0x80_0000);
    lemma_pow2_pos(j);
    lemma_pow2_pos(150);
    if j > 127 {
        lemma_pow2_strictly_increases(127, j);
    }
    assert(pow2(127) <= pow2(j));
    lemma_pow2_adds(23, 127);
    lemma2_to64();
    lemma2_to64_rest();
    assert(pow2(23) == 0x80_0000);
    assert(mag >= pow2(150)) by (nonlinear_arith)
        requires
            m >= pow2(23),
            pow2(j) >= pow2(127),
            pow2(23) * pow2(127) == pow2(150),
            mag == m * pow2(j),
    ;
    assert(mag * kk >= pow2(150) * kk) by (nonlinear_arith)
        requires
            mag >= pow2(150),
            0 < kk,
    ;
    lemma_div_multiples_vanish(kk, pow2(150) as int);
    lemma_div_is_ordered(pow2(150) * kk, mag * kk, pow2(150) as int);
    assert((mag * kk) / (pow2(150) as int) >= kk);
    if !f32_sign(b) {
        assert(f32_scaled(b) * kk == mag * kk);
        assert(quant_floor(b, max) >= kk);
    } else {
        assert(f32_scaled(b) * kk == -(mag * kk)) by (nonlinear_arith)
            requires
                f32_scaled(b) == -mag,
        ;
        assert(-(mag * kk) <= pow2(150) * (-kk)) by (nonlinear_arith)
            requires
                mag * kk >= pow2(150) * kk,
        ;
        lemma_div_multiples_vanish(-kk, pow2(150) as int);
        lemma_div_is_ordered(-(mag * kk), pow2(150) * (-kk), pow2(150) as int);
        assert(quant_floor(b, max) <= -kk);
    }
}

/// The quantization of any bit pattern lies in the target range.
pub proof fn lemma_quant_bounds(b: u32, max: int)
    requires
        0 < max,
    ensures
        -max - 1 <= quant_spec(b, max) <= max,
{
}

/// Full-scale quantization: an amplitude of +1.0 reaches the maximum
/// representable value of every target, and -1.0 reaches the minimum,
/// one quantization step below the negated maximum, per the
/// bias-corrected rounding policy.
/// An amplitude of exactly +1.0 quantizes to the target maximum.
proof fn lemma_full_scale_pos(b: u32, max: int)
    requires
        !f32_is_nan(b),
        !f32_is_inf(b),
        f32_scaled(b) == pow2(149),
        0 < max,
    ensures
        quant_spec(b, max) == max,
{
    let d = pow2(150) as int;
    let kk = 2 * max + 1;
    lemma_pow2_pos(149);
    lemma_pow2_pos(150);
    lemma_pow2_adds(149, 1);
    lemma2_to64();
    assert((pow2(149) as int) * kk == max * d + pow2(149)) by (nonlinear_arith)
        requires
            d == 2 * pow2(149),
            kk == 2 * max + 1,
    ;
    lemma_fundamental_div_mod_converse_div(max * d + pow2(149), d, max, pow2(149) as int);
    assert(quant_floor(b, max) == max);
}

/// An amplitude of exactly -1.0 quantizes to the target minimum.
proof fn lemma_full_scale_neg(b: u32, max: int)
    requires
        !f32_is_nan(b),
        !f32_is_inf(b),
        f32_scaled(b) == -(pow2(149) as int),
        0 < max,
    ensures
        quant_spec(b, max) == -max - 1,
{
    let d = pow2(150) as int;
    let kk = 2 * max + 1;
    lemma_pow2_pos(149);
    lemma_pow2_pos(150);
    lemma_pow2_adds(149, 1);
    lemma2_to64();
    assert((-(pow2(149) as int)) * kk == (-max - 1) * d + pow2(149)) by (nonlinear_arith)
        requires
            d == 2 * pow2(149),
            kk == 2 * max + 1,
    ;
    lemma_fundamental_div_mod_converse_div((-max - 1) * d + pow2(149), d, -max - 1, pow2(149) as int);
    assert(quant_floor(b, max) == -max - 1);
}

/// The scaled value of the bit patterns of +1.0 and -1.0.
proof fn lemma_unit_scaled()
    ensures
        f32_scaled(0x3F80_0000) == pow2(149),
        f32_scaled(0xBF80_0000) == -(pow2(149) as int),
        !f32_is_nan(0x3F80_0000) && !f32_is_inf(0x3F80_0000),
        !f32_is_nan(0xBF80_0000) && !f32_is_inf(0xBF80_0000),
{
    assert(0x3F80_0000u32 >> 31 == 0) by (bit_vector);
    assert((0x3F80_0000u32 >> 23) & 0xFF == 127) by (bit_vector);
    assert(0x3F80_0000u32 & 0x7F_FFFF == 0) by (bit_vector);
    assert(0xBF80_0000u32 >> 31 == 1) by (bit_vector);
    assert((0xBF80_0000u32 >> 23) & 0xFF == 127) by (bit_vector);
    assert(0xBF80_0000u32 & 0x7F_FFFF == 0) by (bit_vector);
    lemma2_to64();
    lemma_pow2_adds(23, 126);
    assert(f32_mant(0x3F80_0000) == 0x80_0000);
    assert(f32_e1(0x3F80_0000) == 127);
    assert(0x80_0000 * pow2(126) == pow2(149)) by (nonlinear_arith)
        requires
            pow2(23) == 0x80_0000,
            pow2(23) * pow2(126) == pow2(149),
    ;
}

/// Full-scale quantization: an amplitude of +1.0 reaches the maximum
/// representable value of every target, and -1.0 reaches the minimum,
/// one quantization step below the negated maximum, per the
/// bias-corrected rounding policy.
pub proof fn lemma_quantize_full_scale()
    ensures
        quant16(0x3F80_0000) == 0x7FFF,
        quant16(0xBF80_0000) == -0x8000,
        quant32(0x3F80_0000) == 0x7FFF_FFFF,
        quant32(0xBF80_0000) == -0x8000_0000,
        quant24(0x3F80_0000) == 0x7F_FFFF,
        quant24(0xBF80_0000) == -0x80_0000,
{
    lemma_unit_scaled();
    lemma_full_scale_pos(0x3F80_0000, 0x7FFF);
    lemma_full_scale_neg(0xBF80_0000, 0x7FFF);
    lemma_full_scale_pos(0x3F80_0000, 0x7FFF_FFFF);
    lemma_full_scale_neg(0xBF80_0000, 0x7FFF_FFFF);
    lemma_fundamental_div_mod_converse_div(0x7FFF_FFFF, 256, 0x7F_FFFF, 255);
    lemma_fundamental_div_mod_converse_div(-0x8000_0000, 256, -0x80_0000, 0);
}

/// Round-trip accuracy: for a finite amplitude of magnitude at most
/// one, the quantized 16-bit sample brackets the exact product
/// `value * (MAX + 1/2)` to within one quantization step. Scaled by
/// 2^150 to exact integers: `q * 2^150 <= value * 2^149 * 0xFFFF <
/// (q + 1) * 2^150`.
pub proof fn lemma_quant16_error(b: u32)
    requires
        !f32_is_nan(b),
        !f32_is_inf(b),
        -pow2(149) <= f32_scaled(b) <= pow2(149),
    ensures
        quant16(b) * (pow2(150) as int) <= f32_scaled(b) * 0xFFFF,
        f32_scaled(b) * 0xFFFF < (quant16(b) + 1) * (pow2(150) as int),
{
    let s = f32_scaled(b);
    let x = s * 0xFFFF;
    let d = pow2(150) as int;
    lemma_pow2_pos(149);
    lemma_pow2_pos(150);
    lemma_pow2_adds(149, 1);
    lemma2_to64();
    assert(d == 2 * pow2(149));
    // upper bound: x <= 2^149 * 0xFFFF == 0x7FFF * d + 2^149, so x / d <= 0x7FFF
    lemma_mul_inequality(s, pow2(149) as int, 0xFFFF);
    assert(pow2(149) * 0xFFFF == 0x7FFF * d + pow2(149)) by (nonlinear_arith)
        requires
            d == 2 * pow2(149),
    ;
    lemma_fundamental_div_mod_converse_div(0x7FFF * d + pow2(149), d, 0x7FFF, pow2(149) as int);
    lemma_div_is_ordered(x, 0x7FFF * d + pow2(149), d);
    // lower bound: x >= -(2^149 * 0xFFFF) == (-0x8000) * d + 2^149, so x / d >= -0x8000
    assert((-(pow2(149) as int)) * 0xFFFF <= x) by (nonlinear_arith)
        requires
            -(pow2(149) as int) <= s,
            x == s * 0xFFFF,
    ;
    assert((-(pow2(149) as int)) * 0xFFFF == (-0x8000) * d + pow2(149)) by (nonlinear_arith)
        requires
            d == 2 * pow2(149),
    ;
    lemma_fundamental_div_mod_converse_div((-0x8000) * d + pow2(149), d, -0x8000, pow2(149) as int);
    lemma_div_is_ordered((-0x8000) * d + pow2(149), x, d);
    // no saturation, so the quantization is the floor itself
    assert(quant16(b) == x / d);
    // and the floor brackets x to within one step
    lemma_fundamental_div_mod(x, d);
    assert((x / d) * d <= x < (x / d + 1) * d) by (nonlinear_arith)
        requires
            x == d * (x / d) + x % d,
            0 <= x % d < d,
    ;
}

// ---------------------------------------------------------------------
// The implementation.
// ---------------------------------------------------------------------

/// Quantize the bit pattern `bits` to a signed target whose maximum
/// representable value is `max`, per the bias-corrected rounding policy.
pub fn quantize_scaled(bits: u32, max: u64) -> (r: i64)
    requires
        1 <= max <= 0x7FFF_FFFF,
    ensures
        r as int == quant_spec(bits, max as int),
{
    let sign: bool = (bits >> 31) == 1;
    let e: u32 = (bits >> 23) & 0xFF;
    let f: u32 = bits & 0x7F_FFFF;
    let min_i: i64 = -(max as i64) - 1;
    proof {
        assert(bits & 0x7F_FFFF < 0x80_0000) by (bit_vector);
        assert((bits >> 23) & 0xFF < 256) by (bit_vector);
    }
    if e == 255 {
        if f != 0 {
            0
        } else if sign {
            min_i
        } else {
            max as i64
        }
    } else if e >= 128 {
        proof {
            lemma_quant_sat(bits, max as int);
        }
        if sign {
            min_i
        } else {
            max as i64
        }
    } else {
        let mant: u64 = if e == 0 {
            f as u64
        } else {
            (f as u64) + 0x80_0000
        };
        let e1: u32 = if e == 0 {
            1
        } else {
            e
        };
        let kk: u64 = 2 * max + 1;
        proof {
            assert(mant * kk <= 0xFF_FFFF * 0xFFFF_FFFFu64) by (nonlinear_arith)
                requires
                    mant <= 0xFF_FFFF,
                    kk <= 0xFFFF_FFFF,
            ;
        }
        let a: u64 = mant * kk;
        let sh: u32 = 151 - e1;
        proof {
            lemma_quant_floor_shift(bits, max as int, a as int, sh as nat);
            lemma_pow2_pos(sh as nat);
        }
        if !sign {
            let q: u64 = if sh >= 64 {
                proof {
                    lemma2_to64_rest();
                    lemma_pow2_strictly_increases(63, sh as nat);
                    lemma_basic_div(a as int, pow2(sh as nat) as int);
                }
                0
            } else {
                proof {
                    lemma_u64_shr_is_div(a, sh as u64);
                }
                a >> (sh as u64)
            };
            proof {
                lemma_div_pos_is_pos(a as int, pow2(sh as nat) as int);
            }
            if q > max {
                max as i64
            } else {
                q as i64
            }
        } else {
            if sh >= 64 {
                proof {
                    lemma2_to64_rest();
                    lemma_pow2_strictly_increases(63, sh as nat);
                }
                if a == 0 {
                    proof {
                        lemma_basic_div((a + pow2(sh as nat) - 1) as int, pow2(sh as nat) as int);
                    }
                    0
                } else {
                    proof {
                        lemma_fundamental_div_mod_converse_div(
                            a + pow2(sh as nat) - 1,
                            pow2(sh as nat) as int,
                            1,
                            a - 1,
                        );
                    }
                    -1
                }
            } else {
                proof {
                    lemma_u64_pow2_no_overflow(sh as nat);
                    lemma_u64_shl_is_mul(1u64, sh as u64);
                    lemma2_to64_rest();
                    if (sh as nat) < 63 {
                        lemma_pow2_strictly_increases(sh as nat, 63);
                    }
                }
                let step: u64 = 1u64 << (sh as u64);
                let c: u64 = (a + step - 1) >> (sh as u64);
                proof {
                    lemma_u64_shr_is_div((a + step - 1) as u64, sh as u64);
                    lemma_div_pos_is_pos((a + step - 1) as int, pow2(sh as nat) as int);
                }
                if c >= max + 1 {
                    min_i
                } else {
                    -(c as i64)
                }
            }
        }
    }
}

/// Quantize to a signed 16-bit sample.
pub fn quantize_i16(bits: u32) -> (r: i16)
    ensures
        r as int == quant16(bits),
{
    proof {
        lemma_quant_bounds(bits, 0x7FFF);
    }
    let q: i64 = quantize_scaled(bits, 0x7FFF);
    q as i16
}

/// Quantize to a signed 32-bit sample.
pub fn quantize_i32(bits: u32) -> (r: i32)
    ensures
        r as int == quant32(bits),
{
    proof {
        lemma_quant_bounds(bits, 0x7FFF_FFFF);
    }
    let q: i64 = quantize_scaled(bits, 0x7FFF_FFFF);
    q as i32
}

/// Quantize to a signed 24-bit sample held in the low bits of an `i32`:
/// the 32-bit quantization with its least significant byte dropped.
pub fn quantize_i24(bits: u32) -> (r: i32)
    ensures
        r as int == quant24(bits),
        -0x80_0000 <= r <= 0x7F_FFFF,
{
    let q: i32 = quantize_i32(bits);
    proof {
        lemma_quant_bounds(bits, 0x7FFF_FFFF);
    }
    if q >= 0 {
        let r: i32 = ((q as u32) / 256) as i32;
        proof {
            lemma_div_is_ordered(q as int, 0x7FFF_FFFF, 256);
            lemma_div_pos_is_pos(q as int, 256);
        }
        r
    } else {
        let m: u64 = (-(q as i64)) as u64;
        let c: u64 = (m + 255) / 256;
        proof {
            lemma_neg_div(m as int, 256);
            lemma_div_is_ordered(m as int + 255, 0x8000_0000int + 255, 256);
            lemma_div_pos_is_pos(m as int + 255, 256);
        }
        (-(c as i64)) as i32
    }
}

} // verus!

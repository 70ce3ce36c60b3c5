//! From radiance to a byte.

use vstd::prelude::*;
use vstd::arithmetic::div_mod::{lemma_basic_div, lemma_div_multiples_vanish_quotient};
use vstd::arithmetic::power2::{
    lemma2_to64,
    lemma_pow2_adds,
    lemma_pow2_pos,
    lemma_pow2_strictly_increases,
    lemma_pow2_unfold,
    pow2,
};
use crate::scalar::{
    grade,
    lemma_grade_bounds,
    lemma_grade_order,
    lemma_value_of_one,
    power_of_two,
    Scalar,
    INFINITE,
    ONE,
    SIGN,
};
use crate::things::Color;

verus! {

/// The byte that stands for the channel value `c`: 255 times the value,
/// clamped to the range from zero to one, rounded to the nearest whole number,
/// a half rounded up. The value of `c` is `c.value() / 2^149`, so the byte is
/// the whole part of `(510 * c.value() + 2^149) / 2^150`. A NaN gives 0.
pub open spec fn quantize_spec(c: Scalar) -> int {
    if c.nan() || c.value() <= 0 {
        0
    } else if c.value() >= pow2(149) {
        255
    } else {
        (510 * c.value() + pow2(149)) / (pow2(150) as int)
    }
}

/// A number whose exponent field is below 117 is less than `2^-10`, and 255
/// times that is less than a half: its byte is 0.
proof fn lemma_dark(m: nat)
    requires
        m / 0x80_0000 < 117,
    ensures
        (510 * (grade(m) as int) + pow2(149)) / (pow2(150) as int) == 0,
{
    let e: nat = m / 0x80_0000;
    lemma_grade_bounds(m);
    lemma2_to64();
    if e < 116 {
        lemma_pow2_strictly_increases(e, 116);
    }
    lemma_pow2_adds(23, 116);
    lemma_pow2_adds(9, 139);
    lemma_pow2_unfold(149);
    lemma_pow2_unfold(150);
    let g: int = grade(m) as int;
    let top: int = pow2(116) as int;
    assert(0x80_0000 * pow2(e) <= 0x80_0000 * top) by (nonlinear_arith)
        requires
            pow2(e) <= top,
    ;
    assert(g < pow2(139));
    assert(510 * g < 512 * pow2(139)) by (nonlinear_arith)
        requires
            0 <= g < pow2(139),
    ;
    lemma_basic_div(510 * g + pow2(149), pow2(150) as int);
}

/// Turns a channel of radiance into a byte: `round(255 * clamp(c, 0, 1))`.
///
/// Values below zero give 0 and values above one give 255, so a pixel that is
/// too bright saturates. A channel that is no number gives 0.
pub fn quantize(c: Scalar) -> (r: u8)
    ensures
        r == quantize_spec(c),
{
    let m: u32 = c.bits % SIGN;
    proof {
        lemma_grade_order(m as nat, 0);
        lemma_grade_order(m as nat, 0x3f80_0000);
        lemma_value_of_one();
    }
    if c.bits >= SIGN || m > INFINITE || m == 0 {
        return 0;
    }
    if m >= ONE {
        return 255;
    }
    let e: u32 = m / 0x80_0000;
    let f: u32 = m % 0x80_0000;
    if e < 117 {
        proof {
            lemma_dark(m as nat);
        }
        return 0;
    }
    let s: u32 = 150 - e;
    let half: u64 = power_of_two(s);
    proof {
        lemma2_to64();
        if 24 < s {
            lemma_pow2_strictly_increases(24, s as nat);
        }
    }
    let mantissa: u64 = 0x80_0000 + f as u64;
    let num: u64 = 510 * mantissa + half;
    let q: u64 = num / (2 * half);
    proof {
        let p: int = pow2((e - 1) as nat) as int;
        let h: int = half as int;
        lemma_pow2_pos((e - 1) as nat);
        lemma_pow2_adds(s as nat, (e - 1) as nat);
        lemma_pow2_unfold(150);
        assert(grade(m as nat) == mantissa * p);
        assert(pow2(149) == h * p);
        assert(510 * (mantissa * p) + h * p == p * (510 * mantissa + h)) by (nonlinear_arith);
        assert(2 * (h * p) == p * (2 * h)) by (nonlinear_arith);
        lemma_div_multiples_vanish_quotient(p, num as int, 2 * h);
        assert(q == quantize_spec(c));
        let n: int = num as int;
        assert(n < 256 * (2 * h));
        assert(n / (2 * h) < 256) by (nonlinear_arith)
            requires
                0 <= n < 256 * (2 * h),
                h > 0,
        ;
    }
    q as u8
}

/// The three bytes of a pixel of the given radiance: red, green, blue.
pub fn pixel(color: &Color) -> (r: [u8; 3])
    ensures
        r[0] == quantize_spec(color.r),
        r[1] == quantize_spec(color.g),
        r[2] == quantize_spec(color.b),
{
    [quantize(color.r), quantize(color.g), quantize(color.b)]
}

} // verus!

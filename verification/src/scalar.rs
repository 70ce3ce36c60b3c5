//! Single-precision numbers held by their IEEE 754 binary32 bit pattern.
//!
//! The renderer's arithmetic runs on hardware floats outside this crate. What
//! the renderer *decides* from those numbers (which hit is nearer, whether a
//! weight is positive, whether a coordinate lies inside a face) is decided
//! here, on the bit patterns, against an exact model of the encoded value.

use vstd::prelude::*;
use vstd::arithmetic::power2::{pow2, lemma_pow2_pos, lemma_pow2_strictly_increases, lemma_pow2_unfold};

verus! {

/// Number of distinct bit patterns with the sign bit clear.
pub const SIGN: u32 = 0x8000_0000;

/// Bit pattern of the number one.
pub const ONE: u32 = 0x3f80_0000;

/// Bit pattern of positive infinity; every larger magnitude is a NaN.
pub const INFINITE: u32 = 0x7f80_0000;

/// The magnitude encoded by the low 31 bits `m` of a pattern, in units of
/// 2^-149 (the smallest subnormal). With exponent field `e = m / 2^23` and
/// fraction `f = m % 2^23` this is `f` for `e = 0` and `(2^23 + f) * 2^(e-1)`
/// otherwise. Infinity gets the value the formula gives it, above every finite
/// number.
pub open spec fn grade(m: nat) -> nat {
    if m / 0x80_0000 == 0 {
        m
    } else {
        (0x80_0000 + m % 0x80_0000) * pow2((m / 0x80_0000 - 1) as nat)
    }
}

/// Lower and upper bound of the magnitudes that share one exponent field.
pub proof fn lemma_grade_bounds(m: nat)
    ensures
        0x80_0000 * pow2((m / 0x80_0000) as nat) > grade(m),
        m / 0x80_0000 >= 1 ==> grade(m) >= 0x80_0000 * pow2((m / 0x80_0000 - 1) as nat),
{
    let e: nat = m / 0x80_0000;
    let f: nat = m % 0x80_0000;
    if e == 0 {
        assert(pow2(0) == 1) by {
            lemma_pow2_pos(0);
            reveal(vstd::arithmetic::power::pow);
            vstd::arithmetic::power2::lemma_pow2(0);
        }
    } else {
        let p: nat = pow2((e - 1) as nat);
        lemma_pow2_pos((e - 1) as nat);
        lemma_pow2_unfold(e);
        assert((0x80_0000 + f) * p < 0x80_0000 * (2 * p)) by (nonlinear_arith)
            requires
                f < 0x80_0000,
                p > 0,
        ;
        assert((0x80_0000 + f) * p >= 0x80_0000 * p) by (nonlinear_arith)
            requires
                f >= 0,
                p > 0,
        ;
    }
}

/// The encoding is monotone: a larger pattern encodes a larger magnitude.
pub proof fn lemma_grade_increases(a: nat, b: nat)
    requires
        a < b,
    ensures
        grade(a) < grade(b),
{
    let ea: nat = a / 0x80_0000;
    let eb: nat = b / 0x80_0000;
    let fa: nat = a % 0x80_0000;
    let fb: nat = b % 0x80_0000;
    if ea == eb {
        if ea != 0 {
            let p: nat = pow2((ea - 1) as nat);
            lemma_pow2_pos((ea - 1) as nat);
            assert((0x80_0000 + fa) * p < (0x80_0000 + fb) * p) by (nonlinear_arith)
                requires
                    fa < fb,
                    p > 0,
            ;
        }
    } else {
        assert(ea < eb);
        lemma_grade_bounds(a);
        lemma_grade_bounds(b);
        let lo: nat = pow2(ea);
        let hi: nat = pow2((eb - 1) as nat);
        if ea < eb - 1 {
            lemma_pow2_strictly_increases(ea, (eb - 1) as nat);
        }
        assert(0x80_0000 * lo <= 0x80_0000 * hi) by (nonlinear_arith)
            requires
                lo <= hi,
        ;
    }
}

/// Patterns and magnitudes are ordered alike, and only the pattern 0 encodes 0.
pub proof fn lemma_grade_order(a: nat, b: nat)
    ensures
        a < b <==> grade(a) < grade(b),
        a == b <==> grade(a) == grade(b),
        a == 0 <==> grade(a) == 0,
{
    if a < b {
        lemma_grade_increases(a, b);
    }
    if b < a {
        lemma_grade_increases(b, a);
    }
    if 0 < a {
        lemma_grade_increases(0, a);
    }
}

/// Two to the power `k`.
pub(crate) fn power_of_two(k: u32) -> (r: u64)
    requires
        k <= 33,
    ensures
        r == pow2(k as nat),
        r <= 0x2_0000_0000,
{
    let mut r: u64 = 1;
    let mut i: u32 = 0;
    proof {
        vstd::arithmetic::power2::lemma2_to64();
        vstd::arithmetic::power2::lemma2_to64_rest();
    }
    while i < k
        invariant
            i <= k <= 33,
            r == pow2(i as nat),
            r <= 0x2_0000_0000,
            pow2(33) == 0x2_0000_0000,
        decreases k - i,
    {
        proof {
            lemma_pow2_unfold((i + 1) as nat);
            if i + 1 < 33 {
                lemma_pow2_strictly_increases((i + 1) as nat, 33);
            }
        }
        r = r * 2;
        i += 1;
    }
    r
}

/// A single-precision number, identified by its bit pattern.
///
/// `==` on this type is equality of patterns: it tells `0.0` from `-0.0` and
/// finds a NaN equal to itself. Numeric comparison is [`Scalar::lt`] and
/// [`Scalar::le`].
#[derive(Clone, Copy, Debug, PartialEq, Eq, Structural)]
pub struct Scalar {
    pub bits: u32,
}

impl Scalar {
    /// The sign bit is set.
    pub open spec fn sign(self) -> bool {
        self.bits >= 0x8000_0000
    }

    /// The pattern without its sign bit.
    pub open spec fn low(self) -> nat {
        (self.bits % 0x8000_0000) as nat
    }

    /// The pattern encodes no number.
    pub open spec fn nan(self) -> bool {
        self.low() > 0x7f80_0000
    }

    /// The pattern encodes a number other than an infinity.
    pub open spec fn finite(self) -> bool {
        self.low() < 0x7f80_0000
    }

    /// The encoded number in units of 2^-149.
    pub open spec fn value(self) -> int {
        if self.sign() {
            -(grade(self.low()) as int)
        } else {
            grade(self.low()) as int
        }
    }

    /// Numeric `<`: false as soon as one side is a NaN.
    pub open spec fn lt_spec(self, other: Scalar) -> bool {
        !self.nan() && !other.nan() && self.value() < other.value()
    }

    /// Numeric `<=`: false as soon as one side is a NaN.
    pub open spec fn le_spec(self, other: Scalar) -> bool {
        !self.nan() && !other.nan() && self.value() <= other.value()
    }

    /// Numeric `> 0`.
    pub open spec fn positive(self) -> bool {
        !self.nan() && self.value() > 0
    }

    /// Numeric `< 0`.
    pub open spec fn negative(self) -> bool {
        !self.nan() && self.value() < 0
    }

    /// The pattern with its sign bit flipped.
    pub open spec fn neg_spec(self) -> Scalar {
        Scalar {
            bits: if self.bits >= 0x8000_0000 {
                (self.bits - 0x8000_0000) as u32
            } else {
                (self.bits + 0x8000_0000) as u32
            },
        }
    }

    /// The pattern with its sign bit cleared.
    pub open spec fn abs_spec(self) -> Scalar {
        Scalar { bits: self.bits % 0x8000_0000 }
    }

    /// `lo <= self <= hi`, as numbers.
    pub open spec fn within_spec(self, lo: Scalar, hi: Scalar) -> bool {
        lo.le_spec(self) && self.le_spec(hi)
    }

    /// The number with the given bit pattern.
    pub fn from_bits(bits: u32) -> (r: Scalar)
        ensures
            r.bits == bits,
    {
        Scalar { bits }
    }

    /// The bit pattern of the number.
    pub fn to_bits(self) -> (r: u32)
        ensures
            r == self.bits,
    {
        self.bits
    }

    /// Positive zero.
    pub fn zero() -> (r: Scalar)
        ensures
            r.bits == 0,
            r.value() == 0,
            !r.nan(),
    {
        Scalar { bits: 0 }
    }

    /// Whether the pattern is a NaN.
    pub fn is_nan(self) -> (r: bool)
        ensures
            r == self.nan(),
    {
        self.bits % SIGN > INFINITE
    }

    /// Whether the pattern is a number other than an infinity.
    pub fn is_finite(self) -> (r: bool)
        ensures
            r == self.finite(),
    {
        self.bits % SIGN < INFINITE
    }

    /// The number with its sign flipped. Exact for every pattern.
    pub fn neg(self) -> (r: Scalar)
        ensures
            r == self.neg_spec(),
            r.low() == self.low(),
            r.sign() != self.sign(),
            r.nan() == self.nan(),
            r.value() == -self.value(),
    {
        if self.bits >= SIGN {
            Scalar { bits: self.bits - SIGN }
        } else {
            Scalar { bits: self.bits + SIGN }
        }
    }

    /// The number with its sign cleared. Exact for every pattern.
    pub fn abs(self) -> (r: Scalar)
        ensures
            r == self.abs_spec(),
            r.low() == self.low(),
            !r.sign(),
            r.nan() == self.nan(),
            r.value() == if self.value() < 0 { -self.value() } else { self.value() },
    {
        Scalar { bits: self.bits % SIGN }
    }

    /// Numeric `self < other`.
    pub fn lt(self, other: Scalar) -> (r: bool)
        ensures
            r == self.lt_spec(other),
    {
        let a: u32 = self.bits % SIGN;
        let b: u32 = other.bits % SIGN;
        if a > INFINITE || b > INFINITE {
            return false;
        }
        proof {
            lemma_grade_order(a as nat, b as nat);
            lemma_grade_order(b as nat, a as nat);
        }
        if self.bits >= SIGN {
            if other.bits >= SIGN {
                b < a
            } else {
                a != 0 || b != 0
            }
        } else {
            if other.bits >= SIGN {
                false
            } else {
                a < b
            }
        }
    }

    /// Numeric `self <= other`.
    pub fn le(self, other: Scalar) -> (r: bool)
        ensures
            r == self.le_spec(other),
    {
        let a: u32 = self.bits % SIGN;
        let b: u32 = other.bits % SIGN;
        if a > INFINITE || b > INFINITE {
            return false;
        }
        proof {
            lemma_grade_order(a as nat, b as nat);
            lemma_grade_order(b as nat, a as nat);
        }
        if self.bits >= SIGN {
            if other.bits >= SIGN {
                b <= a
            } else {
                true
            }
        } else {
            if other.bits >= SIGN {
                a == 0 && b == 0
            } else {
                a <= b
            }
        }
    }

    /// Numeric `self > 0`.
    pub fn is_positive(self) -> (r: bool)
        ensures
            r == self.positive(),
            r == (Scalar { bits: 0 }).lt_spec(self),
    {
        let a: u32 = self.bits % SIGN;
        proof {
            lemma_grade_order(a as nat, 0);
        }
        self.bits < SIGN && a != 0 && a <= INFINITE
    }

    /// Numeric `self < 0`.
    pub fn is_negative(self) -> (r: bool)
        ensures
            r == self.negative(),
            r == self.lt_spec((Scalar { bits: 0 })),
    {
        let a: u32 = self.bits % SIGN;
        proof {
            lemma_grade_order(a as nat, 0);
        }
        self.bits >= SIGN && a != 0 && a <= INFINITE
    }

    /// Whether `lo <= self <= hi`, both ends included.
    pub fn within(self, lo: Scalar, hi: Scalar) -> (r: bool)
        ensures
            r == self.within_spec(lo, hi),
    {
        lo.le(self) && self.le(hi)
    }
}

/// The number one has the value `2^149` in units of `2^-149`.
pub proof fn lemma_value_of_one()
    ensures
        grade(0x3f80_0000) == pow2(149),
        (Scalar { bits: ONE }).value() == pow2(149),
        !(Scalar { bits: ONE }).nan(),
{
    vstd::arithmetic::power2::lemma2_to64();
    vstd::arithmetic::power2::lemma_pow2_adds(23, 126);
    assert(0x3f80_0000nat / 0x80_0000 == 127);
    assert(0x3f80_0000nat % 0x80_0000 == 0);
}

/// Flipping the sign bit negates the value and keeps a NaN a NaN.
pub proof fn lemma_neg(a: Scalar)
    ensures
        a.neg_spec().value() == -a.value(),
        a.neg_spec().nan() == a.nan(),
        a.neg_spec().low() == a.low(),
{
    if a.bits >= 0x8000_0000 {
        assert(a.neg_spec().bits == a.bits - 0x8000_0000);
    } else {
        assert(a.neg_spec().bits == a.bits + 0x8000_0000);
    }
    lemma_grade_order(a.low(), 0);
}

/// Clearing the sign bit gives the absolute value and keeps a NaN a NaN.
pub proof fn lemma_abs(a: Scalar)
    ensures
        a.abs_spec().value() == if a.value() < 0 { -a.value() } else { a.value() },
        a.abs_spec().value() >= 0,
        a.abs_spec().value() == 0 <==> a.value() == 0,
        a.abs_spec().nan() == a.nan(),
{
    assert(a.abs_spec().low() == a.low());
}

} // verus!

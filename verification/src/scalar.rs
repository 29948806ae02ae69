//! Single-precision values held by their IEEE 754 binary32 bit patterns.
//!
//! [`Scalar::value`] says which number a finite bit pattern stands for, and
//! the contracts of this library speak of that number. Sign and order can be
//! read off the bits with integer operations alone: the executable
//! comparisons compare [`Scalar::rank`]s, and [`lemma_rank_orders_values`]
//! shows that the order of ranks is the order of the numbers.

use vstd::arithmetic::power2::lemma_pow2_pos;
use vstd::arithmetic::power2::lemma_pow2_strictly_increases;
use vstd::arithmetic::power2::lemma_pow2_unfold;
use vstd::arithmetic::power2::pow2;
use vstd::prelude::*;

verus! {

/// The bit that holds the sign.
pub const SIGN_BIT: u32 = 0x8000_0000;

/// The magnitude bits of an infinity; larger magnitudes are NaNs.
pub const INFINITY_BITS: u32 = 0x7f80_0000;

/// The weight of the leading bit that the fraction of a normal value leaves
/// out: two to the 23rd.
pub const HIDDEN_BIT: u32 = 0x0080_0000;

/// The bit pattern of the number one.
pub const ONE_BITS: u32 = 0x3f80_0000;

/// A binary32 value, by its bit pattern. Equality is equality of bits, so the
/// two zeros differ although their ranks agree.
#[derive(Clone, Copy, Debug, PartialEq, Eq, Structural)]
pub struct Scalar {
    pub bits: u32,
}

/// Positive zero, as a ghost value.
pub open spec fn zero() -> Scalar {
    Scalar { bits: 0 }
}

/// The number one, as a ghost value.
pub open spec fn one() -> Scalar {
    Scalar { bits: ONE_BITS }
}

impl Scalar {
    /// The bits without the sign bit.
    pub open spec fn magnitude(self) -> int {
        if self.bits >= SIGN_BIT {
            self.bits - SIGN_BIT
        } else {
            self.bits as int
        }
    }

    /// Whether the sign bit is set (true of `-0.0` too).
    pub open spec fn sign_negative(self) -> bool {
        self.bits >= SIGN_BIT
    }

    /// Neither an infinity nor a NaN.
    pub open spec fn finite(self) -> bool {
        self.magnitude() < INFINITY_BITS
    }

    /// Not a number.
    pub open spec fn nan(self) -> bool {
        self.magnitude() > INFINITY_BITS
    }

    /// The signed position of the value among all binary32 values: both zeros
    /// have rank 0, the smallest positive value has rank 1, its negation -1.
    pub open spec fn rank(self) -> int {
        if self.sign_negative() {
            -self.magnitude()
        } else {
            self.magnitude()
        }
    }

    /// The exponent field: the eight bits below the sign.
    pub open spec fn exponent(self) -> int {
        self.magnitude() / (HIDDEN_BIT as int)
    }

    /// The fraction field: the low 23 bits.
    pub open spec fn fraction(self) -> int {
        self.magnitude() % (HIDDEN_BIT as int)
    }

    /// The absolute value that a finite bit pattern stands for, counted in
    /// units of the smallest positive value, two to the minus 149th. With
    /// exponent field zero the fraction counts as it is; otherwise the hidden
    /// bit is added and each step of the exponent doubles.
    pub open spec fn size(self) -> int {
        if self.exponent() == 0 {
            self.fraction()
        } else {
            (HIDDEN_BIT + self.fraction()) * pow2((self.exponent() - 1) as nat)
        }
    }

    /// The number that a finite bit pattern stands for, in the same units.
    pub open spec fn value(self) -> int {
        if self.sign_negative() {
            -self.size()
        } else {
            self.size()
        }
    }

    /// How far apart binary32 values lie at this magnitude, in the same
    /// units: the weight of the last bit of the fraction.
    pub open spec fn spacing(self) -> int {
        if self.exponent() == 0 {
            1
        } else {
            pow2((self.exponent() - 1) as nat) as int
        }
    }

    /// Stands for a number that differs from the fraction `num / den` by at
    /// most half the spacing: no binary32 value of this magnitude comes
    /// closer to the fraction.
    pub open spec fn approximates(self, num: int, den: int) -> bool {
        &&& self.finite()
        &&& den > 0
        &&& -(den * self.spacing()) <= 2 * (den * self.value() - num * one().value())
        &&& 2 * (den * self.value() - num * one().value()) <= den * self.spacing()
    }

    /// Stands for the fraction `num / den` exactly.
    pub open spec fn is_fraction(self, num: int, den: int) -> bool {
        &&& self.finite()
        &&& den > 0
        &&& den * self.value() == num * one().value()
    }

    /// The value with the sign bit flipped, which is what negation does to
    /// every binary32 value.
    pub open spec fn negated(self) -> Scalar {
        if self.bits >= SIGN_BIT {
            Scalar { bits: (self.bits - SIGN_BIT) as u32 }
        } else {
            Scalar { bits: (self.bits + SIGN_BIT) as u32 }
        }
    }

    /// Numerically below `other`; false when either is NaN.
    pub open spec fn below(self, other: Scalar) -> bool {
        !self.nan() && !other.nan() && self.value() < other.value()
    }

    /// Numerically above zero; false of a NaN.
    pub open spec fn positive(self) -> bool {
        !self.nan() && self.value() > 0
    }

    /// Numerically below zero; false of a NaN.
    pub open spec fn negative(self) -> bool {
        !self.nan() && self.value() < 0
    }

    pub fn from_bits(bits: u32) -> (r: Scalar)
        ensures
            r.bits == bits,
    {
        Scalar { bits }
    }

    pub fn to_bits(&self) -> (r: u32)
        ensures
            r == self.bits,
    {
        self.bits
    }

    /// Positive zero.
    pub fn zero() -> (r: Scalar)
        ensures
            r == zero(),
    {
        Scalar { bits: 0 }
    }

    /// The number one.
    pub fn one() -> (r: Scalar)
        ensures
            r == one(),
    {
        Scalar { bits: ONE_BITS }
    }

    pub fn is_finite(&self) -> (r: bool)
        ensures
            r == self.finite(),
    {
        if self.bits >= SIGN_BIT {
            self.bits - SIGN_BIT < INFINITY_BITS
        } else {
            self.bits < INFINITY_BITS
        }
    }

    pub fn is_nan(&self) -> (r: bool)
        ensures
            r == self.nan(),
    {
        if self.bits >= SIGN_BIT {
            self.bits - SIGN_BIT > INFINITY_BITS
        } else {
            self.bits > INFINITY_BITS
        }
    }

    /// The rank as a machine integer: an integer that orders bit patterns as
    /// their numbers are ordered.
    pub fn ordinal(&self) -> (r: i64)
        ensures
            r == self.rank(),
    {
        if self.bits >= SIGN_BIT {
            let m: u32 = self.bits - SIGN_BIT;
            0i64 - (m as i64)
        } else {
            self.bits as i64
        }
    }

    /// Negation: the sign flips, the magnitude stays.
    pub fn neg(self) -> (r: Scalar)
        ensures
            r == self.negated(),
            r.value() == -self.value(),
            r.nan() == self.nan(),
            r.finite() == self.finite(),
    {
        if self.bits >= SIGN_BIT {
            Scalar { bits: self.bits - SIGN_BIT }
        } else {
            Scalar { bits: self.bits + SIGN_BIT }
        }
    }

    /// `self < other` as numbers.
    pub fn lt(&self, other: &Scalar) -> (r: bool)
        ensures
            r == self.below(*other),
    {
        proof {
            lemma_rank_orders_values(*self, *other);
        }
        !self.is_nan() && !other.is_nan() && self.ordinal() < other.ordinal()
    }

    /// `self > 0` as a number.
    pub fn is_positive(&self) -> (r: bool)
        ensures
            r == self.positive(),
    {
        proof {
            lemma_rank_orders_values(zero(), *self);
        }
        !self.is_nan() && self.ordinal() > 0
    }

    /// `self < 0` as a number.
    pub fn is_negative(&self) -> (r: bool)
        ensures
            r == self.negative(),
    {
        proof {
            lemma_rank_orders_values(*self, zero());
        }
        !self.is_nan() && self.ordinal() < 0
    }
}

/// A larger magnitude stands for a larger absolute value.
pub proof fn lemma_size_grows(x: Scalar, y: Scalar)
    requires
        x.magnitude() < y.magnitude(),
    ensures
        0 <= x.size() < y.size(),
{
    let h = HIDDEN_BIT as int;
    let ex = x.exponent();
    let ey = y.exponent();
    let fx = x.fraction();
    let fy = y.fraction();
    assert(x.magnitude() == h * ex + fx && 0 <= fx < h);
    assert(y.magnitude() == h * ey + fy && 0 <= fy < h);
    assert(ex <= ey) by (nonlinear_arith)
        requires
            h * ex + fx < h * ey + fy,
            0 <= fx < h,
            0 <= fy < h,
    ;
    assert(0 <= ex) by (nonlinear_arith)
        requires
            0 <= h * ex + fx,
            0 <= fx < h,
    ;
    if ex == ey {
        if ex > 0 {
            let p = pow2((ex - 1) as nat) as int;
            lemma_pow2_pos((ex - 1) as nat);
            assert(0 <= (h + fx) * p < (h + fy) * p) by (nonlinear_arith)
                requires
                    0 <= fx < fy,
                    h > 0,
                    p > 0,
            ;
        }
    } else {
        let q = pow2((ey - 1) as nat) as int;
        lemma_pow2_pos((ey - 1) as nat);
        assert(h * q <= (h + fy) * q) by (nonlinear_arith)
            requires
                0 <= fy,
                q > 0,
        ;
        if ex == 0 {
            assert(h <= h * q) by (nonlinear_arith)
                requires
                    h > 0,
                    q >= 1,
            ;
        } else {
            let p = pow2((ex - 1) as nat) as int;
            lemma_pow2_pos((ex - 1) as nat);
            lemma_pow2_unfold(ex as nat);
            if ex < ey - 1 {
                lemma_pow2_strictly_increases(ex as nat, (ey - 1) as nat);
            }
            assert(0 <= (h + fx) * p < h * (2 * p)) by (nonlinear_arith)
                requires
                    0 <= fx < h,
                    p > 0,
            ;
            assert(h * (2 * p) <= h * q) by (nonlinear_arith)
                requires
                    2 * p <= q,
                    h > 0,
            ;
        }
    }
}

/// The order of ranks is the order of the numbers: of two bit patterns, one
/// has the smaller rank exactly when it stands for the smaller number, and
/// the same rank exactly when it stands for the same number.
pub proof fn lemma_rank_orders_values(x: Scalar, y: Scalar)
    ensures
        (x.rank() < y.rank()) == (x.value() < y.value()),
        (x.rank() == y.rank()) == (x.value() == y.value()),
{
    let o = Scalar { bits: 0 };
    assert(o.size() == 0);
    if x.magnitude() > 0 {
        lemma_size_grows(o, x);
    } else {
        assert(x.size() == 0);
    }
    if y.magnitude() > 0 {
        lemma_size_grows(o, y);
    } else {
        assert(y.size() == 0);
    }
    if x.magnitude() < y.magnitude() {
        lemma_size_grows(x, y);
    }
    if y.magnitude() < x.magnitude() {
        lemma_size_grows(y, x);
    }
}

/// Zero stands for zero and one for one, which is two to the 149th of the
/// unit in which values are counted.
pub proof fn lemma_zero_and_one()
    ensures
        zero().value() == 0,
        one().value() == pow2(149),
        zero().finite(),
        one().finite(),
{
    let h = HIDDEN_BIT as int;
    assert(one().exponent() == 127 && one().fraction() == 0);
    vstd::arithmetic::power2::lemma2_to64();
    vstd::arithmetic::power2::lemma_pow2_adds(23, 126);
    assert(pow2(23) == h);
}

/// How many spacings the number of a normal value counts: the fraction with
/// the hidden bit, with the sign of the value.
pub open spec fn count_of(x: Scalar) -> int {
    if x.sign_negative() {
        -(HIDDEN_BIT + x.fraction())
    } else {
        HIDDEN_BIT + x.fraction()
    }
}

/// How to see that a bit pattern approximates a fraction. With `k` such that
/// one spacing of `x` is the `2^k`-th part of one, the value of `x` counts
/// `count_of(x)` spacings, and it is enough to compare that count with the
/// `num * 2^k / den` spacings of the fraction.
pub proof fn lemma_approximates(x: Scalar, num: int, den: int, k: nat)
    requires
        x.finite(),
        den > 0,
        x.exponent() >= 1,
        x.exponent() - 1 + k == 149,
        -den <= 2 * (den * count_of(x) - num * pow2(k)) <= den,
    ensures
        x.approximates(num, den),
        den * count_of(x) == num * pow2(k) ==> x.is_fraction(num, den),
{
    let e = (x.exponent() - 1) as nat;
    let p = pow2(e) as int;
    let c = pow2(k) as int;
    let count = count_of(x);
    lemma_pow2_pos(e);
    lemma_zero_and_one();
    vstd::arithmetic::power2::lemma_pow2_adds(k, e);
    assert(one().value() == c * p);
    let m = HIDDEN_BIT + x.fraction();
    assert(x.value() == count * p) by (nonlinear_arith)
        requires
            x.value() == (if x.sign_negative() {
                -(m * p)
            } else {
                m * p
            }),
            count == (if x.sign_negative() {
                -m
            } else {
                m
            }),
    ;
    assert(den * (count * p) - num * (c * p) == (den * count - num * c) * p)
        by (nonlinear_arith);
    assert(-(den * p) <= 2 * ((den * count - num * c) * p) <= den * p) by (nonlinear_arith)
        requires
            -den <= 2 * (den * count - num * c) <= den,
            p > 0,
    ;
    if den * count == num * c {
        assert((den * count - num * c) * p == 0) by (nonlinear_arith)
            requires
                den * count == num * c,
        ;
    }
}

/// Negation turns a number into its opposite.
pub proof fn lemma_neg_is_opposite(x: Scalar)
    ensures
        x.negated().value() == -x.value(),
        x.negated().rank() == -x.rank(),
        x.negated().finite() == x.finite(),
        x.negated().nan() == x.nan(),
{
}

/// Negating twice gives the value back, bit for bit.
pub proof fn lemma_neg_involutive(x: Scalar)
    ensures
        x.negated().negated() == x,
{
}

/// Negation reverses the numeric order.
pub proof fn lemma_neg_reverses_order(x: Scalar, y: Scalar)
    ensures
        x.below(y) == y.negated().below(x.negated()),
{
}

/// The sign tests are comparisons with zero.
pub proof fn lemma_sign_is_order(x: Scalar)
    ensures
        x.negative() == x.below(zero()),
        x.positive() == zero().below(x),
{
}

} // verus!

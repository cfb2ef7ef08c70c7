//! Single-precision numbers, held as their IEEE 754 bit patterns.
//!
//! Pedal positions, telemetry fields, thresholds and sizes on the screen are
//! single-precision numbers. This module gives their bit patterns a mathematical meaning,
//! an integer count of the smallest positive number (2^-149), and compares the patterns
//! with integers only. What rounding means is stated here too; the `arithmetic` module
//! computes it.

use vstd::arithmetic::power2::*;
use vstd::prelude::*;

verus! {

/// The sign bit of a pattern.
pub const SIGN: u32 = 0x8000_0000;

/// The pattern of positive infinity; above it, up to the sign bit, lie the NaNs.
pub const INFINITY: u32 = 0x7F80_0000;

/// The hidden bit of a normal number's significand, and the distance between the patterns
/// of a normal number and of its double.
pub const HIDDEN: u32 = 0x0080_0000;

/// The pattern that stands for every undefined result.
pub const QUIET_NAN: u32 = 0x7FC0_0000;

/// The pattern of 0.5.
pub const ONE_HALF: u32 = 0x3F00_0000;

/// The pattern of 1.0.
pub const ONE: u32 = 0x3F80_0000;

/// A single-precision number, as its bit pattern.
#[derive(Clone, Copy, PartialEq, Eq, Structural, Debug)]
pub struct Single {
    pub bits: u32,
}

/// How many units there are in 1.0.
pub open spec fn units_in_one() -> nat {
    pow2(149)
}

/// What the pattern `p` of a number without sign stands for, counted in units of 2^-149.
/// Infinity counts as 2^128, the power of two that follows the largest finite number.
pub open spec fn magnitude(p: nat) -> nat {
    if p < HIDDEN {
        p
    } else {
        (HIDDEN as nat + p % (HIDDEN as nat)) * pow2((p / (HIDDEN as nat) - 1) as nat)
    }
}

/// How far the pattern `p` lies from `num / den` units, in parts of `1 / den`.
pub open spec fn distance(p: nat, num: nat, den: nat) -> nat {
    if magnitude(p) * den >= num {
        (magnitude(p) * den - num) as nat
    } else {
        (num - magnitude(p) * den) as nat
    }
}

/// The pattern `p` is the one that `num / den` units round to: no other is nearer, and of
/// two that are equally near it is the even one.
pub open spec fn is_nearest(p: nat, num: nat, den: nat) -> bool {
    &&& p <= INFINITY
    &&& forall|q: nat|
        #![trigger distance(q, num, den)]
        q <= INFINITY && q != p ==> {
            ||| distance(p, num, den) < distance(q, num, den)
            ||| distance(p, num, den) == distance(q, num, den) && p % 2 == 0
        }
}

/// The pattern that `num / den` units round to.
pub open spec fn nearest(num: nat, den: nat) -> nat {
    choose|p: nat| is_nearest(p, num, den)
}

/// The whole number nearest to `num / den`; of two that are equally near, the even one.
pub open spec fn nearest_whole(num: nat, den: nat) -> nat {
    let below: nat = num / den;
    let rest: nat = num % den;
    if 2 * rest > den || 2 * rest == den && below % 2 == 1 {
        below + 1
    } else {
        below
    }
}

/// Moved up by `k` binary places, the quotient has the 53 binary digits before the point
/// that a double-precision number has room for.
pub open spec fn fills_double(part: nat, whole: nat, k: nat) -> bool {
    whole * pow2(52) <= part * pow2(k) < whole * pow2(53)
}

/// How many binary places a quotient of two whole numbers keeps in double precision.
pub open spec fn places(part: nat, whole: nat) -> nat {
    choose|k: nat| fills_double(part, whole, k)
}

/// The absolute value of an integer.
pub open spec fn abs_int(x: int) -> nat {
    if x < 0 {
        (-x) as nat
    } else {
        x as nat
    }
}

impl Single {
    /// The single with the given pattern.
    pub open spec fn of(bits: u32) -> Single {
        Single { bits }
    }

    /// The single with the given pattern and sign.
    pub open spec fn with_sign(negative: bool, p: nat) -> Single {
        if negative {
            Single { bits: (SIGN + p) as u32 }
        } else {
            Single { bits: p as u32 }
        }
    }

    /// The single nearest to a whole number.
    pub open spec fn of_whole(n: nat) -> Single {
        Single::with_sign(false, nearest(n * units_in_one(), 1))
    }

    /// The quotient of two whole numbers, rounded to double and then to single precision.
    pub open spec fn of_share(part: nat, whole: nat) -> Single {
        let k: nat = places(part, whole);
        Single::with_sign(
            false,
            nearest(nearest_whole(part * pow2(k), whole) * units_in_one(), pow2(k)),
        )
    }

    /// The pattern without its sign.
    pub open spec fn pattern(self) -> nat {
        (self.bits % SIGN) as nat
    }

    /// The sign bit is set.
    pub open spec fn negative(self) -> bool {
        self.bits >= SIGN
    }

    /// The pattern stands for no number.
    pub open spec fn nan(self) -> bool {
        self.pattern() > INFINITY
    }

    /// The pattern stands for a number that is not infinite.
    pub open spec fn finite(self) -> bool {
        self.pattern() < INFINITY
    }

    /// The number itself, counted in units of 2^-149.
    pub open spec fn units(self) -> int {
        if self.negative() {
            -(magnitude(self.pattern()) as int)
        } else {
            magnitude(self.pattern()) as int
        }
    }

    /// `self > other`.
    pub open spec fn exceeds(self, other: Single) -> bool {
        !self.nan() && !other.nan() && self.units() > other.units()
    }

    /// `self >= other`.
    pub open spec fn reaches(self, other: Single) -> bool {
        !self.nan() && !other.nan() && self.units() >= other.units()
    }

    /// The same number with the other sign.
    pub open spec fn negated(self) -> Single {
        if self.negative() {
            Single { bits: (self.bits - SIGN) as u32 }
        } else {
            Single { bits: (self.bits + SIGN) as u32 }
        }
    }

    /// The number without its sign.
    pub open spec fn absolute(self) -> Single {
        Single { bits: self.bits % SIGN }
    }

    /// The number `self`, brought between `low` and `high`.
    pub open spec fn clamped(self, low: Single, high: Single) -> Single {
        if low.exceeds(self) {
            low
        } else if self.exceeds(high) {
            high
        } else {
            self
        }
    }

    /// The larger of two numbers; where one of them is no number, the other.
    pub open spec fn larger(self, other: Single) -> Single {
        if self.nan() || other.exceeds(self) {
            other
        } else {
            self
        }
    }

    /// `self - other`, rounded to the nearest single.
    pub open spec fn difference(self, other: Single) -> Single {
        let exact: int = self.units() - other.units();
        if self.nan() || other.nan() {
            Single::of(QUIET_NAN)
        } else if !self.finite() && !other.finite() && self.negative() == other.negative() {
            Single::of(QUIET_NAN)
        } else if !self.finite() {
            self
        } else if !other.finite() {
            other.negated()
        } else if exact != 0 {
            Single::with_sign(exact < 0, nearest(abs_int(exact), 1))
        } else {
            Single::with_sign(self.negative() && !other.negative(), 0)
        }
    }

    /// `self + other`, rounded to the nearest single.
    pub open spec fn sum(self, other: Single) -> Single {
        self.difference(other.negated())
    }

    /// `self * other`, rounded to the nearest single.
    pub open spec fn product(self, other: Single) -> Single {
        let negative: bool = self.negative() != other.negative();
        if self.nan() || other.nan() {
            Single::of(QUIET_NAN)
        } else if !self.finite() || !other.finite() {
            if self.pattern() == 0 || other.pattern() == 0 {
                Single::of(QUIET_NAN)
            } else {
                Single::with_sign(negative, INFINITY as nat)
            }
        } else {
            Single::with_sign(
                negative,
                nearest(
                    magnitude(self.pattern()) * magnitude(other.pattern()),
                    units_in_one(),
                ),
            )
        }
    }

    /// `self / other`, rounded to the nearest single.
    pub open spec fn quotient(self, other: Single) -> Single {
        let negative: bool = self.negative() != other.negative();
        if self.nan() || other.nan() {
            Single::of(QUIET_NAN)
        } else if !self.finite() {
            if !other.finite() {
                Single::of(QUIET_NAN)
            } else {
                Single::with_sign(negative, INFINITY as nat)
            }
        } else if !other.finite() {
            Single::with_sign(negative, 0)
        } else if other.pattern() == 0 {
            if self.pattern() == 0 {
                Single::of(QUIET_NAN)
            } else {
                Single::with_sign(negative, INFINITY as nat)
            }
        } else {
            Single::with_sign(
                negative,
                nearest(
                    magnitude(self.pattern()) * units_in_one(),
                    magnitude(other.pattern()),
                ),
            )
        }
    }
}

// ---------------------------------------------------------------------------------------
// The order of the patterns
// ---------------------------------------------------------------------------------------

/// A significand `t` at the scale 2^e has the pattern `e * HIDDEN + t`.
pub proof fn lemma_magnitude_of(t: nat, e: nat)
    requires
        t <= 2 * HIDDEN,
        t >= HIDDEN || e == 0,
    ensures
        magnitude(e * (HIDDEN as nat) + t) == t * pow2(e),
{
    let h: nat = HIDDEN as nat;
    let p: nat = e * h + t;
    lemma2_to64();
    if t < h {
        assert(e * h == 0) by (nonlinear_arith)
            requires
                e == 0,
        ;
        assert(t * pow2(e) == t) by (nonlinear_arith)
            requires
                pow2(e) == 1,
        ;
    } else if t < 2 * h {
        assert(p == (e + 1) * h + (t - h)) by (nonlinear_arith)
            requires
                p == e * h + t,
        ;
        assert(p / h == e + 1 && p % h == t - h);
        assert(p >= h) by (nonlinear_arith)
            requires
                p == (e + 1) * h + (t - h),
                t >= h,
        ;
    } else {
        assert(p == (e + 2) * h);
        assert(p / h == e + 2 && p % h == 0);
        lemma_pow2_unfold((e + 1) as nat);
        assert(t * pow2(e) == h * pow2((e + 1) as nat)) by (nonlinear_arith)
            requires
                t == 2 * h,
                pow2((e + 1) as nat) == 2 * pow2(e),
        ;
    }
}

/// Consecutive patterns stand for growing numbers.
pub proof fn lemma_magnitude_step(p: nat)
    ensures
        magnitude(p) < magnitude(p + 1),
{
    let h: nat = HIDDEN as nat;
    if p < h {
        lemma_magnitude_of(p, 0);
        lemma_magnitude_of(p + 1, 0);
        lemma2_to64();
    } else {
        let e: nat = (p / h - 1) as nat;
        let t: nat = h + p % h;
        assert(p == e * h + t) by (nonlinear_arith)
            requires
                h > 0,
                e == p / h - 1,
                t == h + p % h,
        ;
        lemma_magnitude_of(t, e);
        lemma_magnitude_of(t + 1, e);
        lemma_pow2_pos(e);
        assert(t * pow2(e) < (t + 1) * pow2(e)) by (nonlinear_arith)
            requires
                pow2(e) > 0,
        ;
    }
}

/// The order of the patterns is the order of the numbers.
pub proof fn lemma_magnitude_order(p: nat, q: nat)
    requires
        p < q,
    ensures
        magnitude(p) < magnitude(q),
    decreases q - p,
{
    lemma_magnitude_step(p);
    if p + 1 < q {
        lemma_magnitude_order(p + 1, q);
    }
}

/// Distinct patterns stand for distinct numbers, in the same order.
pub proof fn lemma_magnitude_iff(p: nat, q: nat)
    ensures
        magnitude(p) < magnitude(q) <==> p < q,
        magnitude(p) == magnitude(q) <==> p == q,
{
    if p < q {
        lemma_magnitude_order(p, q);
    } else if q < p {
        lemma_magnitude_order(q, p);
    }
}

/// The order of the patterns is the order of the numbers.
pub proof fn lemma_magnitude_monotone(p: nat, q: nat)
    requires
        p <= q,
    ensures
        magnitude(p) <= magnitude(q),
{
    lemma_magnitude_iff(p, q);
}

/// A normal number and its double are `HIDDEN` patterns apart.
pub proof fn lemma_magnitude_double(p: nat)
    requires
        p >= HIDDEN,
    ensures
        magnitude(p + HIDDEN as nat) == 2 * magnitude(p),
{
    let h: nat = HIDDEN as nat;
    let e: nat = (p / h - 1) as nat;
    let t: nat = h + p % h;
    assert(p == e * h + t) by (nonlinear_arith)
        requires
            h > 0,
            e == p / h - 1,
            t == h + p % h,
    ;
    assert((e + 1) * h + t == p + h) by (nonlinear_arith)
        requires
            p == e * h + t,
    ;
    lemma_magnitude_of(t, e);
    lemma_magnitude_of(t, e + 1);
    lemma_pow2_unfold(e + 1);
    assert(t * pow2(e + 1) == 2 * (t * pow2(e))) by (nonlinear_arith)
        requires
            pow2(e + 1) == 2 * pow2(e),
    ;
}

// ---------------------------------------------------------------------------------------
// Comparing singles
// ---------------------------------------------------------------------------------------

impl Single {
    /// Whether the pattern stands for no number.
    pub fn is_nan(self) -> (r: bool)
        ensures
            r == self.nan(),
    {
        self.bits % SIGN > INFINITY
    }

    /// Whether the pattern stands for a number that is not infinite.
    pub fn is_finite(self) -> (r: bool)
        ensures
            r == self.finite(),
    {
        self.bits % SIGN < INFINITY
    }

    /// Whether `self > other`.
    pub fn gt(self, other: Single) -> (r: bool)
        ensures
            r == self.exceeds(other),
    {
        let p: u32 = self.bits % SIGN;
        let q: u32 = other.bits % SIGN;
        proof {
            lemma_magnitude_iff(p as nat, q as nat);
            lemma_magnitude_iff(p as nat, 0);
            lemma_magnitude_iff(q as nat, 0);
        }
        if p > INFINITY || q > INFINITY {
            false
        } else if self.bits < SIGN {
            if other.bits < SIGN {
                p > q
            } else {
                p > 0 || q > 0
            }
        } else {
            other.bits >= SIGN && p < q
        }
    }

    /// Whether `self >= other`.
    pub fn ge(self, other: Single) -> (r: bool)
        ensures
            r == self.reaches(other),
    {
        !self.is_nan() && !other.is_nan() && !other.gt(self)
    }

    /// The number with the other sign.
    pub fn negate(self) -> (r: Single)
        ensures
            r == self.negated(),
    {
        if self.bits >= SIGN {
            Single { bits: self.bits - SIGN }
        } else {
            Single { bits: self.bits + SIGN }
        }
    }

    /// The number without its sign.
    pub fn abs(self) -> (r: Single)
        ensures
            r == self.absolute(),
    {
        Single { bits: self.bits % SIGN }
    }

    /// The number, brought between `low` and `high`.
    pub fn clamp(self, low: Single, high: Single) -> (r: Single)
        ensures
            r == self.clamped(low, high),
    {
        if low.gt(self) {
            low
        } else if self.gt(high) {
            high
        } else {
            self
        }
    }

    /// The larger of two numbers.
    pub fn max(self, other: Single) -> (r: Single)
        ensures
            r == self.larger(other),
    {
        if self.is_nan() || other.gt(self) {
            other
        } else {
            self
        }
    }
}

// ---------------------------------------------------------------------------------------
// Laws
// ---------------------------------------------------------------------------------------

/// Of two numbers either one is the larger or they are equal, and none exceeds itself.
pub proof fn law_order(a: Single, b: Single)
    requires
        !a.nan(),
        !b.nan(),
    ensures
        a.exceeds(b) <==> !b.reaches(a),
        a.reaches(b) || b.reaches(a),
        a.reaches(b) && b.reaches(a) <==> a == b || a.pattern() == 0 && b.pattern() == 0,
{
    lemma_magnitude_iff(a.pattern(), b.pattern());
    lemma_magnitude_iff(a.pattern(), 0);
    lemma_magnitude_iff(b.pattern(), 0);
}

/// A number that was clamped lies between the bounds.
pub proof fn law_clamped(x: Single, low: Single, high: Single)
    requires
        !x.nan(),
        high.reaches(low),
    ensures
        x.clamped(low, high).reaches(low),
        high.reaches(x.clamped(low, high)),
{
}

} // verus!

//! Numbers: what the operations on singles give, to the last digit.

use crate::single::Single;
use crate::single::HIDDEN;
use crate::single::INFINITY;
use vstd::arithmetic::power2::*;
use vstd::prelude::*;

verus! {

/// How far two numbers are apart.
pub open spec fn apart(x: int, y: int) -> int {
    if x < y {
        y - x
    } else {
        x - y
    }
}

/// A pattern as a number that grows as the single does: patterns with a sign count down
/// from zero.
pub open spec fn rank(x: Single) -> int {
    if x.bits < 0x8000_0000 {
        x.bits as int
    } else {
        0x8000_0000 - x.bits
    }
}

/// One single is larger than another where its pattern ranks higher; a NaN is neither
/// larger nor smaller.
pub proof fn law_larger(a: Single, b: Single)
    ensures
        a.exceeds(b) <==> a.bits % 0x8000_0000 <= 0x7F80_0000 && b.bits % 0x8000_0000
            <= 0x7F80_0000 && rank(a) > rank(b),
        a.reaches(b) <==> a.bits % 0x8000_0000 <= 0x7F80_0000 && b.bits % 0x8000_0000
            <= 0x7F80_0000 && rank(a) >= rank(b),
        a.negated().bits % 0x8000_0000 == a.bits % 0x8000_0000,
        a.negated().bits != a.bits,
        a.absolute().bits == a.bits % 0x8000_0000,
{
    crate::single::lemma_magnitude_iff(a.pattern(), b.pattern());
    crate::single::lemma_magnitude_iff(a.pattern(), 0);
    crate::single::lemma_magnitude_iff(b.pattern(), 0);
}

/// A number that was clamped is the bound that it was beyond, or else itself; the larger of
/// two is one of them, and neither lies above it.
pub proof fn law_clamp_and_larger(x: Single, low: Single, high: Single)
    requires
        !x.nan(),
        high.reaches(low),
    ensures
        rank(x) < rank(low) ==> x.clamped(low, high) == low,
        rank(x) > rank(high) ==> x.clamped(low, high) == high,
        rank(low) <= rank(x) <= rank(high) ==> x.clamped(low, high) == x,
        x.larger(low) == x || x.larger(low) == low,
        x.larger(low).reaches(x) && x.larger(low).reaches(low),
{
    law_larger(low, x);
    law_larger(x, high);
    law_larger(high, low);
}

/// What is no number stays as it is when it is clamped, and loses against every number.
pub proof fn law_clamp_no_number(x: Single, y: Single, low: Single, high: Single)
    requires
        x.bits % 0x8000_0000 > 0x7F80_0000,
    ensures
        x.clamped(low, high) == x,
        x.larger(y) == y,
        y.bits % 0x8000_0000 <= 0x7F80_0000 ==> y.larger(x) == y,
{
}

/// What the patterns stand for: up to the first normal number one unit each, and from
/// there on twice as much every 2^23 patterns, in equal steps between. A unit is 2^-149.
pub proof fn law_patterns(p: nat)
    ensures
        p <= 0x80_0000 ==> crate::single::magnitude(p) == p,
        p >= 0x80_0000 ==> crate::single::magnitude(p + 0x80_0000) == 2
            * crate::single::magnitude(p),
        crate::single::magnitude(p + 1) > crate::single::magnitude(p),
        (p + 1) % 0x80_0000 != 0 ==> crate::single::magnitude(p + 2) - crate::single::magnitude(
            p + 1,
        ) == crate::single::magnitude(p + 1) - crate::single::magnitude(p),
        crate::single::magnitude(0x3F80_0000) == pow2(149),
{
    let h: nat = HIDDEN as nat;
    crate::single::lemma_magnitude_step(p);
    crate::arithmetic::lemma_one();
    lemma2_to64();
    if p >= h {
        crate::single::lemma_magnitude_double(p);
    } else {
        crate::single::lemma_magnitude_of(p, 0);
        crate::single::lemma_magnitude_of(p + 1, 0);
    }
    crate::single::lemma_magnitude_of(h, 0);
    if (p + 1) % h != 0 {
        if p < h {
            assert(p + 2 <= h);
            crate::single::lemma_magnitude_of(p + 2, 0);
        } else {
            let e: nat = (p / h - 1) as nat;
            let t: nat = h + p % h;
            assert(p == e * h + t) by (nonlinear_arith)
                requires
                    h > 0,
                    e == p / h - 1,
                    t == h + p % h,
            ;
            assert(p % h + 1 < h);
            crate::single::lemma_magnitude_of(t, e);
            crate::single::lemma_magnitude_of(t + 1, e);
            crate::single::lemma_magnitude_of(t + 2, e);
            assert((t + 1) * pow2(e) == t * pow2(e) + pow2(e)) by (nonlinear_arith);
            assert((t + 2) * pow2(e) == t * pow2(e) + 2 * pow2(e)) by (nonlinear_arith);
        }
    }
}

/// A single is its sign and the pattern without it: a pattern above that of infinity stands
/// for no number, and one below it for a finite number.
pub proof fn law_sign_and_pattern(x: Single)
    ensures
        x.bits < 0x8000_0000 ==> x.units() == crate::single::magnitude(x.bits as nat),
        x.bits >= 0x8000_0000 ==> x.units() == -crate::single::magnitude(
            (x.bits - 0x8000_0000) as nat,
        ),
        x.negative() <==> x.bits >= 0x8000_0000,
        x.nan() <==> x.bits % 0x8000_0000 > 0x7F80_0000,
        x.finite() <==> x.bits % 0x8000_0000 < 0x7F80_0000,
{
}

/// Neighbours among the singles are close to each other.
proof fn lemma_gap(p: nat)
    ensures
        (crate::single::magnitude(p + 1) - crate::single::magnitude(p)) * HIDDEN
            <= crate::single::magnitude(p) + HIDDEN,
{
    let h: nat = HIDDEN as nat;
    lemma2_to64();
    if p < h {
        crate::single::lemma_magnitude_of(p, 0);
        crate::single::lemma_magnitude_of(p + 1, 0);
    } else {
        let e: nat = (p / h - 1) as nat;
        let t: nat = h + p % h;
        assert(p == e * h + t) by (nonlinear_arith)
            requires
                h > 0,
                e == p / h - 1,
                t == h + p % h,
        ;
        crate::single::lemma_magnitude_of(t, e);
        crate::single::lemma_magnitude_of(t + 1, e);
        assert((t + 1) * pow2(e) == t * pow2(e) + pow2(e)) by (nonlinear_arith);
        assert(pow2(e) * h <= t * pow2(e)) by (nonlinear_arith)
            requires
                h <= t,
        ;
    }
}

/// Rounding changes a number by less than a part in 2^24, or half a unit.
pub proof fn lemma_close(num: nat, den: nat)
    requires
        den > 0,
        num < crate::single::magnitude(INFINITY as nat) * den,
    ensures
        apart(
            (crate::single::magnitude(crate::single::nearest(num, den)) * den) as int,
            num as int,
        ) * 0x100_0000 <= num + 0x80_0000 * den,
        crate::single::nearest(num, den) <= INFINITY,
{
    let p: nat = crate::single::nearest(num, den);
    let f: nat = crate::rounding::lemma_floor(num, den, INFINITY as nat);
    crate::rounding::lemma_nearest_exists(num, den);
    lemma_gap(f);
    let low: nat = crate::single::magnitude(f);
    let high: nat = crate::single::magnitude(f + 1);
    let d: nat = crate::single::distance(p, num, den);
    assert(d <= crate::single::distance(f, num, den));
    assert(d <= crate::single::distance(f + 1, num, den));
    assert(2 * d <= high * den - low * den);
    assert(high * den - low * den == (high - low) * den) by (nonlinear_arith);
    assert((2 * d) * HIDDEN <= (high - low) * den * HIDDEN) by (nonlinear_arith)
        requires
            2 * d <= (high - low) * den,
    ;
    assert((high - low) * den * HIDDEN <= low * den + HIDDEN * den) by (nonlinear_arith)
        requires
            (high - low) * HIDDEN <= low + HIDDEN,
            den > 0,
    ;
}

/// A difference is off by less than a part in 2^24.
pub proof fn law_difference_close(a: Single, b: Single)
    requires
        a.finite(),
        b.finite(),
        apart(a.units(), b.units()) < crate::single::magnitude(0x7F80_0000),
    ensures
        !a.difference(b).nan(),
        apart(a.difference(b).units(), a.units() - b.units()) * 0x100_0000 <= apart(
            a.units(),
            b.units(),
        ) + 0x80_0000,
{
    let exact: int = a.units() - b.units();
    if exact != 0 {
        lemma_close(crate::single::abs_int(exact), 1);
    }
}

/// A sum is off by less than a part in 2^24.
pub proof fn law_sum_close(a: Single, b: Single)
    requires
        a.finite(),
        b.finite(),
        apart(a.units(), -b.units()) < crate::single::magnitude(0x7F80_0000),
    ensures
        !a.sum(b).nan(),
        apart(a.sum(b).units(), a.units() + b.units()) * 0x100_0000 <= apart(
            a.units(),
            -b.units(),
        ) + 0x80_0000,
{
    assert(b.negated().units() == -b.units());
    assert(b.negated().finite());
    law_difference_close(a, b.negated());
}

/// A product is off by less than a part in 2^24.
pub proof fn law_product_close(a: Single, b: Single)
    requires
        a.finite(),
        b.finite(),
        apart(a.units() * b.units(), 0) < crate::single::magnitude(0x7F80_0000) * pow2(149),
    ensures
        !a.product(b).nan(),
        apart(a.product(b).units() * pow2(149), a.units() * b.units()) * 0x100_0000 <= apart(
            a.units() * b.units(),
            0,
        ) + 0x80_0000 * pow2(149),
{
    let x: nat = crate::single::magnitude(a.pattern());
    let y: nat = crate::single::magnitude(b.pattern());
    let one: nat = pow2(149);
    lemma_pow2_pos(149);
    lemma_signs(x as int, y as int);
    lemma_close(x * y, one);
    let p: nat = crate::single::nearest(x * y, one);
    let z: nat = crate::single::magnitude(p);
    lemma_signs(z as int, one as int);
}

/// The sign of a product.
proof fn lemma_signs(x: int, y: int)
    requires
        x >= 0,
        y >= 0,
    ensures
        x * y >= 0,
        (-x) * y == -(x * y),
        x * (-y) == -(x * y),
        (-x) * (-y) == x * y,
{
    assert(x * y >= 0) by (nonlinear_arith)
        requires
            x >= 0,
            y >= 0,
    ;
    assert((-x) * y == -(x * y)) by (nonlinear_arith);
    assert(x * (-y) == -(x * y)) by (nonlinear_arith);
    assert((-x) * (-y) == x * y) by (nonlinear_arith);
}

/// A quotient is off by less than a part in 2^24.
pub proof fn law_quotient_close(a: Single, b: Single)
    requires
        a.finite(),
        b.finite(),
        b.units() > 0,
        apart(a.units() * pow2(149), 0) < crate::single::magnitude(0x7F80_0000) * b.units(),
    ensures
        !a.quotient(b).nan(),
        apart(a.quotient(b).units() * b.units(), a.units() * pow2(149)) * 0x100_0000 <= apart(
            a.units() * pow2(149),
            0,
        ) + 0x80_0000 * b.units(),
{
    let x: nat = crate::single::magnitude(a.pattern());
    let y: nat = crate::single::magnitude(b.pattern());
    let one: nat = pow2(149);
    lemma_pow2_pos(149);
    lemma_signs(x as int, one as int);
    crate::single::lemma_magnitude_iff(b.pattern(), 0);
    lemma_close(x * one, y);
    let p: nat = crate::single::nearest(x * one, y);
    let z: nat = crate::single::magnitude(p);
    lemma_signs(z as int, y as int);
}

/// No single is nearer to a difference than the one that stands for it.
#[verifier::rlimit(30)]
pub proof fn law_difference_nearest(a: Single, b: Single, c: Single)
    requires
        a.finite(),
        b.finite(),
        !c.nan(),
    ensures
        apart(a.difference(b).units(), a.units() - b.units()) <= apart(
            c.units(),
            a.units() - b.units(),
        ),
        a.sum(b) == a.difference(b.negated()),
{
    let exact: int = a.units() - b.units();
    if exact != 0 {
        let num: nat = crate::single::abs_int(exact);
        let p: nat = crate::single::nearest(num, 1);
        crate::rounding::lemma_nearest_exists(num, 1);
        lemma_tie(p, c.pattern(), num, 1);
        lemma_tie(p, 0, num, 1);
    }
}

/// No single is nearer to a product than the one that stands for it.
#[verifier::rlimit(30)]
pub proof fn law_product_nearest(a: Single, b: Single, c: Single)
    requires
        a.finite(),
        b.finite(),
        !c.nan(),
    ensures
        apart(a.product(b).units() * pow2(149), a.units() * b.units()) <= apart(
            c.units() * pow2(149),
            a.units() * b.units(),
        ),
        a.product(b).negative() == (a.negative() != b.negative()),
{
    let x: nat = crate::single::magnitude(a.pattern());
    let y: nat = crate::single::magnitude(b.pattern());
    let w: nat = crate::single::magnitude(c.pattern());
    let one: nat = pow2(149);
    let p: nat = crate::single::nearest(x * y, one);
    let z: nat = crate::single::magnitude(p);
    lemma_pow2_pos(149);
    lemma_signs(x as int, y as int);
    lemma_signs(w as int, one as int);
    lemma_signs(z as int, one as int);
    crate::rounding::lemma_nearest_exists(x * y, one);
    assert(crate::single::distance(p, x * y, one) <= crate::single::distance(
        c.pattern(),
        x * y,
        one,
    ));
    assert(crate::single::distance(p, x * y, one) <= crate::single::distance(0, x * y, one));
}

/// No single is nearer to a quotient than the one that stands for it.
#[verifier::rlimit(30)]
pub proof fn law_quotient_nearest(a: Single, b: Single, c: Single)
    requires
        a.finite(),
        b.finite(),
        b.units() > 0,
        !c.nan(),
    ensures
        apart(a.quotient(b).units() * b.units(), a.units() * pow2(149)) <= apart(
            c.units() * b.units(),
            a.units() * pow2(149),
        ),
        a.quotient(b).negative() == a.negative(),
{
    let x: nat = crate::single::magnitude(a.pattern());
    let y: nat = crate::single::magnitude(b.pattern());
    let w: nat = crate::single::magnitude(c.pattern());
    let one: nat = pow2(149);
    let p: nat = crate::single::nearest(x * one, y);
    let z: nat = crate::single::magnitude(p);
    lemma_pow2_pos(149);
    crate::single::lemma_magnitude_iff(b.pattern(), 0);
    lemma_signs(x as int, one as int);
    lemma_signs(w as int, y as int);
    lemma_signs(z as int, y as int);
    crate::rounding::lemma_nearest_exists(x * one, y);
    assert(crate::single::distance(p, x * one, y) <= crate::single::distance(
        c.pattern(),
        x * one,
        y,
    ));
    assert(crate::single::distance(p, x * one, y) <= crate::single::distance(0, x * one, y));
}

/// Whole numbers up to 2^24 are held exactly, and larger ones to a part in 2^24.
pub proof fn law_whole(n: nat)
    requires
        n <= 0xFFFF_FFFF,
    ensures
        Single::of_whole(n).finite(),
        Single::of_whole(n).bits < 0x8000_0000,
        apart(Single::of_whole(n).units(), (n * pow2(149)) as int) * 0x100_0000 <= n * pow2(149)
            + 0x80_0000,
        n <= 0x100_0000 ==> Single::of_whole(n).units() == n * pow2(149),
{
    if n == 0 {
        crate::single::lemma_magnitude_of(0, 0);
        crate::rounding::lemma_nearest_exact(0, 1);
    } else if n <= 0x100_0000 {
        lemma2_to64();
        lemma_exact(n, 0);
    }
    lemma_whole(n);
    lemma_close(n * pow2(149), 1);
}

/// A whole number up to 2^24 is held exactly.
proof fn lemma_exact(n: nat, k: nat)
    requires
        n > 0,
        k <= 23,
        n * pow2(k) <= 0x100_0000,
    ensures
        Single::of_whole(n).units() == n * pow2(149),
    decreases 23 - k,
{
    if n * pow2(k) >= HIDDEN {
        crate::layout::lemma_whole_exact(n, k);
    } else {
        lemma2_to64();
        assert(k < 23) by {
            if k == 23 {
                assert(n * pow2(k) >= pow2(k)) by (nonlinear_arith)
                    requires
                        n > 0,
                ;
            }
        }
        lemma_pow2_unfold(k + 1);
        assert(n * pow2(k + 1) == 2 * (n * pow2(k))) by (nonlinear_arith)
            requires
                pow2(k + 1) == 2 * pow2(k),
        ;
        lemma_exact(n, k + 1);
    }
}

/// A whole number that fits into 32 bits is a finite single.
proof fn lemma_whole(n: nat)
    requires
        n <= 0xFFFF_FFFF,
    ensures
        crate::single::nearest(n * pow2(149), 1) < INFINITY,
        n * pow2(149) < crate::single::magnitude(INFINITY as nat),
{
    let top: nat = (158 * HIDDEN + HIDDEN) as nat;
    lemma2_to64();
    lemma_pow2_pos(149);
    lemma_pow2_adds(32, 149);
    lemma_pow2_adds(23, 158);
    crate::single::lemma_magnitude_of(HIDDEN as nat, 158);
    crate::rounding::lemma_nearest_exact(top, 1);
    assert(n * pow2(149) <= 0x1_0000_0000 * pow2(149)) by (nonlinear_arith)
        requires
            n <= 0x1_0000_0000,
    ;
    crate::rounding::lemma_nearest_monotone(n * pow2(149), 0x1_0000_0000 * pow2(149), 1);
    crate::single::lemma_magnitude_order(top, INFINITY as nat);
}

/// Without a number among the operands there is none in the result.
pub proof fn law_no_number(a: Single, b: Single)
    requires
        a.nan() || b.nan(),
    ensures
        a.difference(b).nan(),
        a.sum(b).nan(),
        a.product(b).nan(),
        a.quotient(b).nan(),
{
}

/// The number is infinite.
pub open spec fn is_infinite(x: Single) -> bool {
    x.bits == 0x7F80_0000 || x.bits == 0xFF80_0000
}

/// The sign of a product and of a quotient is set if one of the two signs is.
pub open spec fn opposed(a: Single, b: Single) -> bool {
    (a.bits >= 0x8000_0000) != (b.bits >= 0x8000_0000)
}

/// How infinity and zero are added and taken away.
pub proof fn law_difference_exceptions(a: Single, b: Single)
    ensures
        is_infinite(a) && b.finite() ==> a.difference(b) == a,
        a.finite() && is_infinite(b) ==> a.difference(b) == b.negated(),
        is_infinite(a) && is_infinite(b) && a.bits != b.bits ==> a.difference(b) == a,
        is_infinite(a) && a.bits == b.bits ==> a.difference(b).bits == 0x7FC0_0000,
        a.nan() || b.nan() ==> a.difference(b).bits == 0x7FC0_0000,
        a.finite() && b.finite() && a.units() == b.units() && !(a.bits == 0x8000_0000 && b.bits
            == 0) ==> a.difference(b).bits == 0,
        a.bits == 0x8000_0000 && b.bits == 0 ==> a.difference(b).bits == 0x8000_0000,
{
    crate::single::lemma_magnitude_iff(a.pattern(), 0);
    crate::single::lemma_magnitude_iff(b.pattern(), 0);
    crate::single::lemma_magnitude_iff(a.pattern(), b.pattern());
    if a.finite() && b.finite() && a.units() == b.units() && a.negative() && !b.negative() {
        assert(a.pattern() == 0 && b.pattern() == 0);
    }
}

/// How infinity and zero are multiplied and divided.
pub proof fn law_product_exceptions(a: Single, b: Single)
    ensures
        a.nan() || b.nan() ==> a.product(b).bits == 0x7FC0_0000 && a.quotient(b).bits
            == 0x7FC0_0000,
        is_infinite(a) && b.bits % 0x8000_0000 == 0 ==> a.product(b).bits == 0x7FC0_0000
            && b.product(a).bits == 0x7FC0_0000,
        is_infinite(a) && !b.nan() && b.bits % 0x8000_0000 != 0 && !opposed(a, b) ==> a.product(
            b,
        ).bits == 0x7F80_0000 && b.product(a).bits == 0x7F80_0000,
        is_infinite(a) && !b.nan() && b.bits % 0x8000_0000 != 0 && opposed(a, b) ==> a.product(
            b,
        ).bits == 0xFF80_0000 && b.product(a).bits == 0xFF80_0000,
        is_infinite(a) && is_infinite(b) ==> a.quotient(b).bits == 0x7FC0_0000,
        is_infinite(a) && b.finite() && !opposed(a, b) ==> a.quotient(b).bits == 0x7F80_0000,
        is_infinite(a) && b.finite() && opposed(a, b) ==> a.quotient(b).bits == 0xFF80_0000,
        a.finite() && is_infinite(b) && !opposed(a, b) ==> a.quotient(b).bits == 0,
        a.finite() && is_infinite(b) && opposed(a, b) ==> a.quotient(b).bits == 0x8000_0000,
        a.bits % 0x8000_0000 == 0 && b.bits % 0x8000_0000 == 0 ==> a.quotient(b).bits
            == 0x7FC0_0000,
        a.finite() && a.bits % 0x8000_0000 != 0 && b.bits % 0x8000_0000 == 0 && !opposed(a, b)
            ==> a.quotient(b).bits == 0x7F80_0000,
        a.finite() && a.bits % 0x8000_0000 != 0 && b.bits % 0x8000_0000 == 0 && opposed(a, b)
            ==> a.quotient(b).bits == 0xFF80_0000,
        !a.nan() && b.finite() && b.bits % 0x8000_0000 != 0 ==> a.quotient(b.negated())
            == a.quotient(b).negated(),
{
    if !a.nan() && b.finite() && b.bits % 0x8000_0000 != 0 {
        let x: nat = crate::single::magnitude(a.pattern());
        let y: nat = crate::single::magnitude(b.pattern());
        crate::single::lemma_magnitude_iff(b.pattern(), 0);
        assert(b.negated().pattern() == b.pattern());
        crate::rounding::lemma_nearest_exists(x * pow2(149), y);
    }
}

/// Of two singles that are equally near to a difference, the one with the even pattern
/// stands for it.
pub proof fn law_difference_ties(a: Single, b: Single, c: Single)
    requires
        a.finite(),
        b.finite(),
        !c.nan(),
        c.units() != a.difference(b).units(),
        apart(c.units(), a.units() - b.units()) == apart(
            a.difference(b).units(),
            a.units() - b.units(),
        ),
    ensures
        a.difference(b).bits % 2 == 0,
{
    let exact: int = a.units() - b.units();
    if exact != 0 {
        let num: nat = crate::single::abs_int(exact);
        let p: nat = crate::single::nearest(num, 1);
        crate::rounding::lemma_nearest_exists(num, 1);
        lemma_tie(p, c.pattern(), num, 1);
        crate::single::lemma_magnitude_iff(c.pattern(), 0);
        lemma_tie(p, 0, num, 1);
        assert(crate::single::distance(p, num, 1) <= crate::single::distance(0, num, 1));
    }
}

/// A pattern that is as near as the nearest makes the nearest even.
pub proof fn lemma_tie(p: nat, q: nat, num: nat, den: nat)
    requires
        crate::single::is_nearest(p, num, den),
        q <= INFINITY,
    ensures
        p != q && crate::single::distance(p, num, den) == crate::single::distance(q, num, den)
            ==> p % 2 == 0,
        crate::single::distance(p, num, den) <= crate::single::distance(q, num, den),
{
}

/// Of two singles that are equally near to a product without a sign, the one with the even
/// pattern stands for it.
pub proof fn law_product_ties(a: Single, b: Single, c: Single)
    requires
        a.bits < 0x7F80_0000,
        b.bits < 0x7F80_0000,
        c.bits <= 0x7F80_0000,
        c != a.product(b),
        apart(c.units() * pow2(149), a.units() * b.units()) == apart(
            a.product(b).units() * pow2(149),
            a.units() * b.units(),
        ),
    ensures
        a.product(b).bits % 2 == 0,
{
    let num: nat = crate::single::magnitude(a.pattern()) * crate::single::magnitude(b.pattern());
    lemma_pow2_pos(149);
    crate::rounding::lemma_nearest_exists(num, pow2(149));
    lemma_tie(crate::single::nearest(num, pow2(149)), c.pattern(), num, pow2(149));
}

/// Of two singles that are equally near to a quotient without a sign, the one with the even
/// pattern stands for it.
pub proof fn law_quotient_ties(a: Single, b: Single, c: Single)
    requires
        a.bits < 0x7F80_0000,
        0 < b.bits < 0x7F80_0000,
        c.bits <= 0x7F80_0000,
        c != a.quotient(b),
        apart(c.units() * b.units(), a.units() * pow2(149)) == apart(
            a.quotient(b).units() * b.units(),
            a.units() * pow2(149),
        ),
    ensures
        a.quotient(b).bits % 2 == 0,
{
    let num: nat = crate::single::magnitude(a.pattern()) * pow2(149);
    let den: nat = crate::single::magnitude(b.pattern());
    crate::single::lemma_magnitude_iff(b.pattern(), 0);
    crate::rounding::lemma_nearest_exists(num, den);
    lemma_tie(crate::single::nearest(num, den), c.pattern(), num, den);
}

} // verus!

//! Rounding to the nearest single: that there is always exactly one, and how to find it.

use crate::single::HIDDEN;
use crate::single::INFINITY;
use vstd::arithmetic::power2::*;
use vstd::prelude::*;

verus! {

/// Scaling keeps the order.
pub proof fn lemma_scale(a: int, b: int, s: int)
    requires
        s > 0,
    ensures
        a < b <==> a * s < b * s,
        a == b <==> a * s == b * s,
{
    assert(a < b <==> a * s < b * s) by (nonlinear_arith)
        requires
            s > 0,
    ;
    assert(a == b <==> a * s == b * s) by (nonlinear_arith)
        requires
            s > 0,
    ;
}

/// The order of the patterns is the order of the numbers, in whatever parts of a unit.
proof fn lemma_parts_iff(p: nat, q: nat, den: nat)
    requires
        den > 0,
    ensures
        crate::single::magnitude(p) * den < crate::single::magnitude(q) * den <==> p < q,
        crate::single::magnitude(p) * den == crate::single::magnitude(q) * den <==> p == q,
{
    crate::single::lemma_magnitude_iff(p, q);
    lemma_scale(
        crate::single::magnitude(p) as int,
        crate::single::magnitude(q) as int,
        den as int,
    );
}

/// A number between two consecutive patterns rounds to the nearer of them, or, from the
/// middle, to the even one.
proof fn lemma_nearest_between(p: nat, num: nat, den: nat)
    requires
        den > 0,
        p < INFINITY,
        crate::single::magnitude(p) * den <= num < crate::single::magnitude(p + 1) * den,
    ensures
        ({
            let below: int = num - crate::single::magnitude(p) * den;
            let above: int = crate::single::magnitude(p + 1) * den - num;
            let up: bool = above < below || above == below && p % 2 == 1;
            let r: nat = if up { p + 1 } else { p };
            crate::single::is_nearest(r, num, den) && crate::single::nearest(num, den) == r
        }),
{
    let below: int = num - crate::single::magnitude(p) * den;
    let above: int = crate::single::magnitude(p + 1) * den - num;
    let up: bool = above < below || above == below && p % 2 == 1;
    let r: nat = if up { p + 1 } else { p };
    assert forall|q: nat|
        #![trigger crate::single::distance(q, num, den)]
        q <= INFINITY && q != r implies {
            ||| crate::single::distance(r, num, den) < crate::single::distance(q, num, den)
            ||| crate::single::distance(r, num, den) == crate::single::distance(q, num, den) && r
                % 2 == 0
        } by {
        lemma_parts_iff(q, p, den);
        lemma_parts_iff(q, p + 1, den);
    }
    lemma_nearest_is(r, num, den);
}

/// No two patterns are both the nearest.
proof fn lemma_nearest_unique(p: nat, q: nat, num: nat, den: nat)
    requires
        den > 0,
        crate::single::is_nearest(p, num, den),
        crate::single::is_nearest(q, num, den),
    ensures
        p == q,
{
    let a: nat = if p < q { p } else { q };
    let b: nat = if p < q { q } else { p };
    if p != q {
        assert(crate::single::distance(p, num, den) == crate::single::distance(q, num, den));
        lemma_parts_iff(a, b, den);
        lemma_parts_iff(a, a + 1, den);
        lemma_parts_iff(a + 1, b, den);
        if a + 1 < b {
            assert(crate::single::distance(a + 1, num, den) < crate::single::distance(
                a,
                num,
                den,
            ));
        }
    }
}

/// `nearest` is what `is_nearest` describes.
pub proof fn lemma_nearest_is(p: nat, num: nat, den: nat)
    requires
        den > 0,
        crate::single::is_nearest(p, num, den),
    ensures
        crate::single::nearest(num, den) == p,
{
    lemma_nearest_unique(p, crate::single::nearest(num, den), num, den);
}

/// From infinity upwards everything rounds to infinity.
pub proof fn lemma_nearest_top(num: nat, den: nat)
    requires
        den > 0,
        num >= crate::single::magnitude(INFINITY as nat) * den,
    ensures
        crate::single::is_nearest(INFINITY as nat, num, den),
        crate::single::nearest(num, den) == INFINITY,
{
    let top: nat = INFINITY as nat;
    assert forall|q: nat|
        #![trigger crate::single::distance(q, num, den)]
        q <= INFINITY && q != top implies crate::single::distance(top, num, den)
        < crate::single::distance(q, num, den) by {
        lemma_parts_iff(q, top, den);
    }
    lemma_nearest_is(top, num, den);
}

/// The last pattern that is not above a number.
pub proof fn lemma_floor(num: nat, den: nat, top: nat) -> (p: nat)
    requires
        num < crate::single::magnitude(top) * den,
    ensures
        p < top,
        crate::single::magnitude(p) * den <= num < crate::single::magnitude(p + 1) * den,
    decreases top,
{
    assert(top > 0) by {
        assert(crate::single::magnitude(0) * den == 0) by (nonlinear_arith)
            requires
                crate::single::magnitude(0) == 0,
        ;
    }
    if num < crate::single::magnitude((top - 1) as nat) * den {
        lemma_floor(num, den, (top - 1) as nat)
    } else {
        (top - 1) as nat
    }
}

/// Every number rounds to some pattern.
pub proof fn lemma_nearest_exists(num: nat, den: nat)
    requires
        den > 0,
    ensures
        crate::single::is_nearest(crate::single::nearest(num, den), num, den),
{
    if num >= crate::single::magnitude(INFINITY as nat) * den {
        lemma_nearest_top(num, den);
    } else {
        let p: nat = lemma_floor(num, den, INFINITY as nat);
        lemma_nearest_between(p, num, den);
    }
}

/// A number that a pattern stands for rounds to that pattern.
pub proof fn lemma_nearest_exact(p: nat, den: nat)
    requires
        den > 0,
        p <= INFINITY,
    ensures
        crate::single::nearest(crate::single::magnitude(p) * den, den) == p,
{
    let num: nat = crate::single::magnitude(p) * den;
    assert forall|q: nat|
        #![trigger crate::single::distance(q, num, den)]
        q <= INFINITY && q != p implies crate::single::distance(p, num, den)
        < crate::single::distance(q, num, den) by {
        lemma_parts_iff(p, q, den);
    }
    lemma_nearest_is(p, num, den);
}

/// Rounding keeps the order.
pub proof fn lemma_nearest_monotone(x: nat, y: nat, den: nat)
    requires
        den > 0,
        x <= y,
    ensures
        crate::single::nearest(x, den) <= crate::single::nearest(y, den) <= INFINITY,
{
    lemma_nearest_exists(x, den);
    lemma_nearest_exists(y, den);
    let p: nat = crate::single::nearest(x, den);
    let q: nat = crate::single::nearest(y, den);
    if q < p {
        let mp: nat = crate::single::magnitude(p) * den;
        let mq: nat = crate::single::magnitude(q) * den;
        lemma_parts_iff(q, p, den);
        assert(crate::single::distance(q, x, den) >= crate::single::distance(p, x, den));
        assert(crate::single::distance(p, y, den) >= crate::single::distance(q, y, den));
        assert(2 * y <= mp + mq <= 2 * x);
        lemma_nearest_unique(p, q, x, den);
    }
}

/// Above the smallest normal number, twice as much rounds to twice the number.
pub proof fn lemma_nearest_twice(num: nat, den: nat)
    requires
        den > 0,
        num >= crate::single::magnitude(HIDDEN as nat) * den,
        crate::single::nearest(num, den) + HIDDEN <= INFINITY,
    ensures
        crate::single::nearest(num, den) >= HIDDEN,
        crate::single::nearest(2 * num, den) == crate::single::nearest(num, den) + HIDDEN,
        crate::single::magnitude((crate::single::nearest(num, den) + HIDDEN) as nat) == 2
            * crate::single::magnitude(crate::single::nearest(num, den)),
{
    let h: nat = HIDDEN as nat;
    let p: nat = crate::single::nearest(num, den);
    lemma_nearest_exists(num, den);
    lemma_nearest_exact(h, den);
    lemma_nearest_monotone(crate::single::magnitude(h) * den, num, den);
    crate::single::lemma_magnitude_double(p);
    crate::single::lemma_magnitude_double(h);
    lemma_distance_twice(p, num, den);
    assert forall|q: nat|
        #![trigger crate::single::distance(q, 2 * num, den)]
        q <= INFINITY && q != p + h implies {
        ||| crate::single::distance(p + h, 2 * num, den) < crate::single::distance(
            q,
            2 * num,
            den,
        )
        ||| crate::single::distance(p + h, 2 * num, den) == crate::single::distance(
            q,
            2 * num,
            den,
        ) && (p + h) % 2 == 0
    } by {
        if q >= 2 * h {
            let half: nat = (q - h) as nat;
            lemma_distance_twice(half, num, den);
            assert(crate::single::distance(half, num, den) >= 0);
        } else {
            lemma_distance_twice(h, num, den);
            lemma_parts_iff(q, 2 * h, den);
            assert(crate::single::magnitude(2 * h) * den == 2 * (crate::single::magnitude(h) * den))
                by (nonlinear_arith)
                requires
                    crate::single::magnitude(2 * h) == 2 * crate::single::magnitude(h),
            ;
            assert(crate::single::distance(p, num, den) <= crate::single::distance(h, num, den));
        }
    }
    lemma_nearest_is(p + h, 2 * num, den);
}

/// The double of a normal number is twice as far from twice as much.
proof fn lemma_distance_twice(p: nat, num: nat, den: nat)
    requires
        p >= HIDDEN,
    ensures
        crate::single::distance(p + HIDDEN as nat, 2 * num, den) == 2 * crate::single::distance(
            p,
            num,
            den,
        ),
{
    crate::single::lemma_magnitude_double(p);
    assert((2 * crate::single::magnitude(p)) * den == 2 * (crate::single::magnitude(p) * den))
        by (nonlinear_arith);
}

/// A fraction rounds to what its reduced form rounds to.
pub proof fn lemma_nearest_reduced(num: nat, den: nat, c: nat)
    requires
        den > 0,
        c > 0,
    ensures
        crate::single::nearest(num * c, den * c) == crate::single::nearest(num, den),
{
    lemma_nearest_exists(num, den);
    let p: nat = crate::single::nearest(num, den);
    assert(den * c > 0) by (nonlinear_arith)
        requires
            den > 0,
            c > 0,
    ;
    assert forall|q: nat| crate::single::distance(q, num * c, den * c) == #[trigger]
        crate::single::distance(q, num, den) * c by {
        let m: nat = crate::single::magnitude(q);
        assert(m * (den * c) == (m * den) * c) by (nonlinear_arith);
        lemma_scale((m * den) as int, num as int, c as int);
        assert((m * den - num) * c == (m * den) * c - num * c) by (nonlinear_arith);
        assert((num - m * den) * c == num * c - (m * den) * c) by (nonlinear_arith);
    }
    assert forall|q: nat|
        #![trigger crate::single::distance(q, num * c, den * c)]
        q <= INFINITY && q != p implies {
            ||| crate::single::distance(p, num * c, den * c) < crate::single::distance(
                q,
                num * c,
                den * c,
            )
            ||| crate::single::distance(p, num * c, den * c) == crate::single::distance(
                q,
                num * c,
                den * c,
            ) && p % 2 == 0
        } by {
        let dp: nat = crate::single::distance(p, num, den);
        let dq: nat = crate::single::distance(q, num, den);
        lemma_scale(dp as int, dq as int, c as int);
    }
    lemma_nearest_is(p, num * c, den * c);
}

// ---------------------------------------------------------------------------------------
// Finding the nearest single
// ---------------------------------------------------------------------------------------

/// The part of an exponent that is not below zero.
pub open spec fn raised(e: int) -> nat {
    if e > 0 {
        e as nat
    } else {
        0
    }
}

/// `num / den` units lie between `x * 2^e` and `(x + 1) * 2^e`, and beyond the former if
/// and only if `more`.
pub open spec fn is_about(x: nat, more: bool, e: int, num: nat, den: nat) -> bool {
    let n: nat = num * pow2(raised(-e));
    let d: nat = den * pow2(raised(e));
    &&& x * d <= n < (x + 1) * d
    &&& more <==> x * d != n
}

/// What is far below half a unit rounds to zero.
proof fn lemma_round_to_zero(t: nat, scale: int, n: nat, d: nat, num: nat, den: nat)
    requires
        den > 0,
        t < 2 * HIDDEN,
        scale <= -30,
        n == num * pow2(raised(-scale)),
        d == den,
        n < (t + 1) * d,
    ensures
        crate::single::nearest(num, den) == 0,
{
    let s: nat = pow2(raised(-scale));
    lemma2_to64();
    if scale < -30 {
        lemma_pow2_strictly_increases(30, raised(-scale));
    }
    assert(num * s >= num * 0x4000_0000) by (nonlinear_arith)
        requires
            s >= 0x4000_0000,
    ;
    assert((t + 1) * den <= 0x100_0000 * den) by (nonlinear_arith)
        requires
            t + 1 <= 0x100_0000,
    ;
    assert(64 * num < den);
    assert(crate::single::magnitude(0) == 0 && crate::single::magnitude(1) == 1);
    assert(crate::single::magnitude(0) * den == 0) by (nonlinear_arith)
        requires
            crate::single::magnitude(0) == 0,
    ;
    assert(crate::single::magnitude(1) * den == den) by (nonlinear_arith)
        requires
            crate::single::magnitude(1) == 1,
    ;
    lemma_nearest_between(0, num, den);
}

/// The exponents on both sides of a scaled fraction.
proof fn lemma_exponents(e: int, k: nat)
    requires
        e + k >= 0,
    ensures
        pow2((e + k) as nat) * pow2(raised(-e)) == pow2(k) * pow2(raised(e)),
{
    lemma_pow2_adds((e + k) as nat, raised(-e));
    lemma_pow2_adds(k, raised(e));
}

/// Where a floor is known, rounding is a matter of what lies above it: `rest` and a little
/// `more`, out of a whole `unit`.
proof fn lemma_round(
    x: nat,
    more: bool,
    e: int,
    num: nat,
    den: nat,
    t: nat,
    k: nat,
    rest: nat,
)
    requires
        den > 0,
        is_about(x, more, e, num, den),
        e + k >= 0,
        x == t * pow2(k) + rest,
        rest < pow2(k),
        t < 2 * HIDDEN,
        t >= HIDDEN || e + k == 0,
        more ==> k > 0,
    ensures
        ({
            let floor: nat = ((e + k) * HIDDEN + t) as nat;
            let up: bool = 2 * rest > pow2(k) || 2 * rest == pow2(k) && (more || t % 2 == 1);
            crate::single::nearest(num, den) == if floor >= INFINITY {
                INFINITY as nat
            } else if up {
                floor + 1
            } else {
                floor
            }
        }),
{
    let scale: nat = (e + k) as nat;
    let floor: nat = scale * (HIDDEN as nat) + t;
    let unit: nat = pow2(k);
    let down: nat = pow2(raised(-e));
    let n: nat = num * down;
    let d: nat = den * pow2(raised(e));
    lemma_pow2_pos(raised(-e));
    lemma_pow2_pos(raised(e));
    lemma_pow2_pos(k);
    lemma_exponents(e, k);
    crate::single::lemma_magnitude_of(t, scale);
    crate::single::lemma_magnitude_of(t + 1, scale);
    let low: nat = crate::single::magnitude(floor) * den;
    let high: nat = crate::single::magnitude(floor + 1) * den;
    assert(d > 0) by (nonlinear_arith)
        requires
            den > 0,
            pow2(raised(e)) > 0,
            d == den * pow2(raised(e)),
    ;
    // Both bounds, brought to the parts that `n` is counted in.
    assert(low * down == (t * unit) * d) by (nonlinear_arith)
        requires
            low == (t * pow2(scale)) * den,
            pow2(scale) * down == unit * pow2(raised(e)),
            d == den * pow2(raised(e)),
    ;
    assert(high * down == ((t + 1) * unit) * d) by (nonlinear_arith)
        requires
            high == ((t + 1) * pow2(scale)) * den,
            pow2(scale) * down == unit * pow2(raised(e)),
            d == den * pow2(raised(e)),
    ;
    assert((t + 1) * unit == t * unit + unit) by (nonlinear_arith);
    assert(x * d == (t * unit) * d + rest * d) by (nonlinear_arith)
        requires
            x == t * unit + rest,
    ;
    assert((x + 1) * d == x * d + d) by (nonlinear_arith);
    assert((t * unit + unit) * d == (t * unit) * d + unit * d) by (nonlinear_arith);
    assert(rest * d + d <= unit * d) by (nonlinear_arith)
        requires
            rest + 1 <= unit,
            d > 0,
    ;
    assert(rest * d >= 0) by (nonlinear_arith);
    lemma_scale(low as int, num as int, down as int);
    lemma_scale(num as int, high as int, down as int);
    assert(low <= num < high);
    if floor >= INFINITY {
        lemma_parts_iff(INFINITY as nat, floor, den);
        lemma_nearest_top(num, den);
    } else {
        let below: int = num - low;
        let above: int = high - num;
        let extra: int = n - x * d;
        assert(below * down == rest * d + extra) by (nonlinear_arith)
            requires
                below == num - low,
                n == num * down,
                low * down == x * d - rest * d,
                extra == n - x * d,
        ;
        assert(above * down == unit * d - rest * d - extra) by (nonlinear_arith)
            requires
                above == high - num,
                n == num * down,
                high * down == x * d - rest * d + unit * d,
                extra == n - x * d,
        ;
        lemma_scale(above, below, down as int);
        lemma_scale((2 * rest) as int, unit as int, d as int);
        assert((2 * rest) * d == 2 * (rest * d)) by (nonlinear_arith);
        if 2 * rest < unit && more {
            // A whole power of two is even, so that there is room for what is left.
            lemma_pow2_unfold(k);
            assert((2 * rest + 2) * d <= unit * d) by (nonlinear_arith)
                requires
                    2 * rest + 2 <= unit,
                    d > 0,
            ;
            assert((2 * rest + 2) * d == 2 * (rest * d) + 2 * d) by (nonlinear_arith);
        }
        if 2 * rest > unit {
            assert((2 * rest) * d >= unit * d + d) by (nonlinear_arith)
                requires
                    2 * rest >= unit + 1,
                    d > 0,
            ;
        }
        assert(floor % 2 == t % 2);
        lemma_nearest_between(floor, num, den);
    }
}

/// A number that is known exactly is known as exactly with twice the count of half the
/// unit.
proof fn lemma_about_double(x: nat, e: int, num: nat, den: nat)
    requires
        e > 0,
        den > 0,
        is_about(x, false, e, num, den),
    ensures
        is_about(2 * x, false, e - 1, num, den),
{
    let d: nat = den * pow2((e - 1) as nat);
    lemma_pow2_unfold(e as nat);
    lemma_pow2_pos((e - 1) as nat);
    assert(den * pow2(e as nat) == 2 * d) by (nonlinear_arith)
        requires
            d == den * pow2((e - 1) as nat),
            pow2(e as nat) == 2 * pow2((e - 1) as nat),
    ;
    assert(x * (2 * d) == (2 * x) * d) by (nonlinear_arith);
    assert(d > 0) by (nonlinear_arith)
        requires
            den > 0,
            pow2((e - 1) as nat) > 0,
            d == den * pow2((e - 1) as nat),
    ;
    assert((2 * x + 1) * d == (2 * x) * d + d) by (nonlinear_arith);
}

/// Halving a floor keeps it a floor.
proof fn lemma_halve_floor(x: nat, t: nat, unit: nat)
    requires
        t * unit <= x < (t + 1) * unit,
    ensures
        (t / 2) * (2 * unit) <= x < (t / 2 + 1) * (2 * unit),
{
    let h: nat = t / 2;
    assert(h * (2 * unit) <= t * unit) by (nonlinear_arith)
        requires
            2 * h <= t,
    ;
    assert((t + 1) * unit <= (h + 1) * (2 * unit)) by (nonlinear_arith)
        requires
            t + 1 <= 2 * h + 2,
    ;
}

/// The pattern nearest to `num / den` units, which lie at `x * 2^e` or, if `more`, a little
/// above it.
pub(crate) fn round(
    x: u128,
    more: bool,
    e: i32,
    Ghost(num): Ghost<nat>,
    Ghost(den): Ghost<nat>,
) -> (p: u32)
    requires
        den > 0,
        x < 0x400_0000_0000_0000_0000_0000,
        -400 <= e <= 400,
        is_about(x as nat, more, e as int, num, den),
        more ==> x >= 0x100_0000,
    ensures
        p == crate::single::nearest(num, den),
        p <= INFINITY,
{
    let two: u128 = 2;
    let mut x: u128 = x;
    let mut e: i32 = e;
    // A short count is lengthened as far as the exponent allows.
    while x < 0x80_0000 && e > 0
        invariant
            two == 2,
            den > 0,
            x < 0x400_0000_0000_0000_0000_0000,
            -400 <= e <= 400,
            is_about(x as nat, more, e as int, num, den),
            more ==> x >= 0x100_0000,
        decreases e,
    {
        proof {
            lemma_about_double(x as nat, e as int, num, den);
        }
        x = x * two;
        e = e - 1;
    }
    // A long count is cut down to the width of a significand.
    let mut t: u128 = x;
    let mut k: i32 = 0;
    let mut unit: u128 = 1;
    proof {
        lemma2_to64();
    }
    while t >= 0x100_0000
        invariant
            two == 2,
            x < 0x400_0000_0000_0000_0000_0000,
            0 <= k <= 66,
            unit == pow2(k as nat),
            unit >= 1,
            t * unit <= x < (t + 1) * unit,
            k > 0 ==> t >= HIDDEN,
            k == 0 ==> t == x,
        decreases t,
    {
        proof {
            assert(unit <= x) by (nonlinear_arith)
                requires
                    t * unit <= x,
                    t >= 1,
                    unit >= 1,
            ;
            if k >= 66 {
                lemma_pow2_adds(64, 2);
                lemma2_to64();
                assert(t * unit >= 0x100_0000 * 0x4_0000_0000_0000_0000) by (nonlinear_arith)
                    requires
                        t >= 0x100_0000,
                        unit >= 0x4_0000_0000_0000_0000,
                ;
            }
            lemma_pow2_unfold((k + 1) as nat);
            lemma_halve_floor(x as nat, t as nat, unit as nat);
        }
        t = t / two;
        unit = unit * two;
        k = k + 1;
    }
    let mut scale: i32 = e + k;
    if scale <= -30 {
        proof {
            let s: nat = pow2((-scale) as nat);
            lemma_pow2_adds((-scale) as nat, k as nat);
            lemma2_to64();
            assert(num * pow2((-e) as nat) == (num * s) * unit) by (nonlinear_arith)
                requires
                    pow2((-e) as nat) == s * unit,
            ;
            assert((x + 1) * (den * 1) <= ((t + 1) * den) * unit) by (nonlinear_arith)
                requires
                    x + 1 <= (t + 1) * unit,
                    den > 0,
            ;
            lemma_scale((num * s) as int, ((t + 1) * den) as int, unit as int);
            lemma_round_to_zero(t as nat, scale as int, num * s, den, num, den);
        }
        return 0;
    }
    // What lies below one unit is cut off too.
    while scale < 0
        invariant
            two == 2,
            -30 < scale,
            scale == e + k,
            0 <= k <= 96,
            scale < 0 ==> k < 66 + 30 + scale + 1,
            unit == pow2(k as nat),
            unit >= 1,
            t < 0x100_0000,
            t * unit <= x < (t + 1) * unit,
            t >= HIDDEN || scale <= 0,
            more ==> k > 0,
        decreases -scale,
    {
        proof {
            lemma_pow2_adds(64, 32);
            lemma2_to64();
            if k < 96 {
                lemma_pow2_strictly_increases(k as nat, 96);
            }
            lemma_pow2_unfold((k + 1) as nat);
            lemma_halve_floor(x as nat, t as nat, unit as nat);
        }
        t = t / two;
        unit = unit * two;
        k = k + 1;
        scale = scale + 1;
    }
    let rest: u128 = x - t * unit;
    proof {
        assert((t + 1) * unit == t * unit + unit) by (nonlinear_arith);
        lemma_round(
            x as nat,
            more,
            e as int,
            num,
            den,
            t as nat,
            k as nat,
            rest as nat,
        );
    }
    let floor: u64 = scale as u64 * 0x80_0000 + t as u64;
    if floor >= 0x7F80_0000 {
        return INFINITY;
    }
    let up: bool = rest > unit - rest || rest == unit - rest && (more || t % two == 1);
    if up {
        (floor + 1) as u32
    } else {
        floor as u32
    }
}

} // verus!

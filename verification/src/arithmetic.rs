//! The four operations on singles, each rounded to the nearest single.

use crate::rounding::round;
use crate::single::Single;
use crate::single::HIDDEN;
use crate::single::INFINITY;
use crate::single::ONE;
use crate::single::ONE_HALF;
use crate::single::QUIET_NAN;
use crate::single::SIGN;
use vstd::arithmetic::power2::*;
use vstd::prelude::*;

verus! {

/// The significand and the scale of a finite pattern.
pub(crate) fn parts(p: u32) -> (r: (u32, u32))
    requires
        p < INFINITY,
    ensures
        crate::single::magnitude(p as nat) == r.0 as nat * pow2(r.1 as nat),
        p == r.1 * HIDDEN + r.0,
        r.0 < 2 * HIDDEN,
        r.1 <= 253,
        r.1 > 0 ==> r.0 >= HIDDEN,
{
    if p < HIDDEN {
        proof {
            crate::single::lemma_magnitude_of(p as nat, 0);
        }
        (p, 0)
    } else {
        let scale: u32 = p / HIDDEN - 1;
        proof {
            crate::single::lemma_magnitude_of((HIDDEN + p % HIDDEN) as nat, scale as nat);
        }
        (HIDDEN + p % HIDDEN, scale)
    }
}

/// Two to the power `k`.
pub(crate) fn power_of_two(k: u32) -> (r: u128)
    requires
        k <= 104,
    ensures
        r == pow2(k as nat),
        1 <= r <= 0x100_0000_0000_0000_0000_0000_0000,
        k <= 64 ==> r <= 0x1_0000_0000_0000_0000,
{
    let mut r: u128 = 1;
    let mut i: u32 = 0;
    proof {
        lemma2_to64();
    }
    while i < k
        invariant
            i <= k <= 104,
            r == pow2(i as nat),
            1 <= r,
        decreases k - i,
    {
        proof {
            lemma_powers(i as nat);
            lemma_pow2_unfold((i + 1) as nat);
        }
        r = r * 2;
        i = i + 1;
    }
    proof {
        lemma_powers(k as nat);
    }
    r
}

/// How large the powers of two are.
proof fn lemma_powers(k: nat)
    requires
        k <= 104,
    ensures
        pow2(k) <= 0x100_0000_0000_0000_0000_0000_0000,
        k <= 64 ==> pow2(k) <= 0x1_0000_0000_0000_0000,
{
    lemma2_to64();
    lemma2_to64_rest();
    lemma_pow2_adds(64, 40);
    if k < 104 {
        lemma_pow2_strictly_increases(k, 104);
    }
    if k < 64 {
        lemma_pow2_strictly_increases(k, 64);
    }
}

/// A whole count of a power of two is known exactly.
proof fn lemma_about_whole(x: nat, e: nat)
    ensures
        crate::rounding::is_about(x, false, e as int, x * pow2(e), 1),
{
    lemma2_to64();
    lemma_pow2_pos(e);
    assert((x * pow2(e)) * 1 == x * (1 * pow2(e))) by (nonlinear_arith);
    assert((x + 1) * (1 * pow2(e)) == x * (1 * pow2(e)) + pow2(e)) by (nonlinear_arith);
}

/// A number that is far smaller than another moves it by less than a part in 2^40.
proof fn lemma_about_far(th: nat, eh: nat, tl: nat, el: nat)
    requires
        tl < 2 * HIDDEN,
        eh > el + 64,
        th >= 1,
    ensures
        ({
            let high: nat = th * pow2(eh);
            let low: nat = tl * pow2(el);
            let x: nat = th * 0x100_0000_0000;
            &&& low < high
            &&& crate::rounding::is_about(x, low > 0, eh - 40, high + low, 1)
            &&& low > 0 ==> crate::rounding::is_about(
                (x - 1) as nat,
                true,
                eh - 40,
                (high - low) as nat,
                1,
            )
        }),
{
    let high: nat = th * pow2(eh);
    let low: nat = tl * pow2(el);
    let x: nat = th * 0x100_0000_0000;
    let d: nat = pow2((eh - 40) as nat);
    lemma2_to64();
    lemma2_to64_rest();
    lemma_pow2_pos(el);
    lemma_pow2_adds(40, (eh - 40) as nat);
    assert(x * d == high) by (nonlinear_arith)
        requires
            x == th * 0x100_0000_0000,
            high == th * pow2(eh),
            pow2(eh) == 0x100_0000_0000 * d,
    ;
    lemma_pow2_adds(24, el);
    if 24 + el < eh - 40 {
        lemma_pow2_strictly_increases(24 + el, (eh - 40) as nat);
    }
    assert(low < d) by (nonlinear_arith)
        requires
            low == tl * pow2(el),
            tl < 0x100_0000,
            0x100_0000 * pow2(el) <= d,
            pow2(el) > 0,
    ;
    assert((x + 1) * (1 * d) == x * d + d) by (nonlinear_arith);
    assert((x - 1) * (1 * d) == x * d - d) by (nonlinear_arith);
    assert(x * (1 * d) == x * d) by (nonlinear_arith);
    assert((x - 1 + 1) * (1 * d) == x * d) by (nonlinear_arith);
    assert(d <= high) by (nonlinear_arith)
        requires
            high == x * d,
            x >= 1,
    ;
    assert((high + low) * 1 == high + low && (high - low) * 1 == high - low);
}

/// The pattern nearest to the sum, or the distance, of the numbers that two finite
/// patterns stand for.
fn combine(p: u32, q: u32, add_up: bool) -> (r: u32)
    requires
        p < INFINITY,
        q < INFINITY,
    ensures
        r <= INFINITY,
        add_up ==> r == crate::single::nearest(
            crate::single::magnitude(p as nat) + crate::single::magnitude(q as nat),
            1,
        ),
        !add_up ==> r == crate::single::nearest(
            crate::single::abs_int(
                crate::single::magnitude(p as nat) - crate::single::magnitude(q as nat),
            ),
            1,
        ),
{
    let (high, low): (u32, u32) = if p >= q {
        (p, q)
    } else {
        (q, p)
    };
    let (th, eh): (u32, u32) = parts(high);
    let (tl, el): (u32, u32) = parts(low);
    let ghost mh: nat = crate::single::magnitude(high as nat);
    let ghost ml: nat = crate::single::magnitude(low as nat);
    proof {
        crate::single::lemma_magnitude_iff(high as nat, low as nat);
        assert(eh >= el) by {
            if eh < el {
                assert(eh * HIDDEN + th < el * HIDDEN + tl) by (nonlinear_arith)
                    requires
                        eh + 1 <= el,
                        th < 2 * HIDDEN,
                        tl >= HIDDEN,
                ;
            }
        }
    }
    if eh - el > 64 {
        let wide: u128 = th as u128 * 0x100_0000_0000;
        proof {
            lemma_about_far(th as nat, eh as nat, tl as nat, el as nat);
            lemma_pow2_pos(el as nat);
            assert(tl > 0 <==> tl * pow2(el as nat) > 0) by (nonlinear_arith)
                requires
                    pow2(el as nat) > 0,
            ;
        }
        let e: i32 = eh as i32 - 40;
        return if add_up || tl == 0 {
            round(wide, tl > 0, e, Ghost(mh + ml), Ghost(1))
        } else {
            round(wide - 1, true, e, Ghost((mh - ml) as nat), Ghost(1))
        };
    }
    let unit: u128 = power_of_two(eh - el);
    proof {
        assert(th * unit < 0x100_0000 * 0x1_0000_0000_0000_0000) by (nonlinear_arith)
            requires
                th < 0x100_0000,
                1 <= unit <= 0x1_0000_0000_0000_0000,
        ;
        lemma_pow2_adds(el as nat, (eh - el) as nat);
        assert(th * pow2(eh as nat) == (th * unit) * pow2(el as nat)) by (nonlinear_arith)
            requires
                pow2(eh as nat) == pow2(el as nat) * unit,
        ;
    }
    let wide: u128 = th as u128 * unit;
    let narrow: u128 = tl as u128;
    proof {
        let s: int = pow2(el as nat) as int;
        lemma_pow2_pos(el as nat);
        crate::rounding::lemma_scale(wide as int, narrow as int, s);
        assert((wide + narrow) * s == wide * s + narrow * s) by (nonlinear_arith);
        assert((wide - narrow) * s == wide * s - narrow * s) by (nonlinear_arith);
        lemma_about_whole((wide + narrow) as nat, el as nat);
        lemma_about_whole((wide - narrow) as nat, el as nat);
    }
    if add_up {
        round(wide + narrow, false, el as i32, Ghost(mh + ml), Ghost(1))
    } else {
        round(wide - narrow, false, el as i32, Ghost((mh - ml) as nat), Ghost(1))
    }
}

/// The product of two numbers with a significand and a scale each.
proof fn lemma_about_product(ta: nat, ea: nat, tb: nat, eb: nat)
    ensures
        crate::rounding::is_about(
            ta * tb,
            false,
            ea + eb - 149,
            (ta * pow2(ea)) * (tb * pow2(eb)),
            pow2(149),
        ),
{
    let e: int = ea + eb - 149;
    let x: nat = ta * tb;
    let num: nat = (ta * pow2(ea)) * (tb * pow2(eb));
    let n: nat = num * pow2(crate::rounding::raised(-e));
    let d: nat = pow2(149) * pow2(crate::rounding::raised(e));
    lemma_pow2_adds(ea, eb);
    lemma_pow2_adds(149, crate::rounding::raised(e));
    lemma_pow2_adds(ea + eb, crate::rounding::raised(-e));
    lemma_pow2_pos(149 + crate::rounding::raised(e));
    assert(149 + crate::rounding::raised(e) == ea + eb + crate::rounding::raised(-e));
    assert(num == x * pow2(ea + eb)) by (nonlinear_arith)
        requires
            num == (ta * pow2(ea)) * (tb * pow2(eb)),
            x == ta * tb,
            pow2(ea + eb) == pow2(ea) * pow2(eb),
    ;
    assert(n == x * d) by (nonlinear_arith)
        requires
            num == x * pow2(ea + eb),
            n == num * pow2(crate::rounding::raised(-e)),
            d == pow2(ea + eb) * pow2(crate::rounding::raised(-e)),
    ;
    assert((x + 1) * d == x * d + d) by (nonlinear_arith);
}

/// The quotient of two numbers with a significand and a scale each.
proof fn lemma_about_quotient(ta: nat, ea: nat, tb: nat, eb: nat, x: nat, rest: nat)
    requires
        ta * 0x1000_0000_0000_0000 == x * tb + rest,
        rest < tb,
    ensures
        crate::rounding::is_about(
            x,
            rest > 0,
            ea - eb + 89,
            (ta * pow2(ea)) * pow2(149),
            tb * pow2(eb),
        ),
{
    let e: int = ea - eb + 89;
    let num: nat = (ta * pow2(ea)) * pow2(149);
    let den: nat = tb * pow2(eb);
    let up: nat = crate::rounding::raised(e);
    let down: nat = crate::rounding::raised(-e);
    let n: nat = num * pow2(down);
    let d: nat = den * pow2(up);
    let s: nat = pow2(eb + up);
    lemma2_to64_rest();
    lemma_pow2_adds(ea, 149);
    lemma_pow2_adds(ea + 149, down);
    lemma_pow2_adds(eb, up);
    lemma_pow2_adds(60, eb + up);
    lemma_pow2_pos(eb + up);
    assert(ea + 149 + down == 60 + (eb + up));
    assert(n == (ta * 0x1000_0000_0000_0000) * s) by (nonlinear_arith)
        requires
            n == ((ta * pow2(ea)) * pow2(149)) * pow2(down),
            pow2(ea + 149) == pow2(ea) * pow2(149),
            pow2(ea + 149 + down) == pow2(ea + 149) * pow2(down),
            pow2(ea + 149 + down) == 0x1000_0000_0000_0000 * s,
    ;
    assert(d == tb * s) by (nonlinear_arith)
        requires
            d == (tb * pow2(eb)) * pow2(up),
            s == pow2(eb) * pow2(up),
    ;
    assert(n == x * d + rest * s) by (nonlinear_arith)
        requires
            n == (x * tb + rest) * s,
            d == tb * s,
    ;
    assert(rest * s < d) by (nonlinear_arith)
        requires
            rest < tb,
            s > 0,
            d == tb * s,
    ;
    assert(rest > 0 <==> rest * s > 0) by (nonlinear_arith)
        requires
            s > 0,
    ;
    assert((x + 1) * d == x * d + d) by (nonlinear_arith);
}

/// While the quotient does not fill a double, it has been moved by few places.
proof fn lemma_exponent_bound(part: nat, whole: nat, k: nat)
    requires
        0 < part,
        whole <= 0xFFFF_FFFF,
        part * pow2(k) < whole * pow2(52),
    ensures
        k < 84,
{
    lemma2_to64();
    lemma_pow2_adds(32, 52);
    if k >= 84 {
        if k > 84 {
            lemma_pow2_strictly_increases(84, k);
        }
        assert(part * pow2(k) >= pow2(84)) by (nonlinear_arith)
            requires
                part >= 1,
                pow2(k) >= pow2(84),
        ;
        assert(whole * pow2(52) <= 0x1_0000_0000 * pow2(52)) by (nonlinear_arith)
            requires
                whole <= 0xFFFF_FFFF,
        ;
    }
}

/// There is only one number of places at which a quotient fills a double.
pub proof fn lemma_places(part: nat, whole: nat, k: nat)
    requires
        crate::single::fills_double(part, whole, k),
    ensures
        crate::single::places(part, whole) == k,
{
    let j: nat = crate::single::places(part, whole);
    let low: nat = if j < k { j } else { k };
    let high: nat = if j < k { k } else { j };
    if j != k {
        if low + 1 < high {
            lemma_pow2_strictly_increases(low + 1, high);
        }
        lemma_pow2_unfold(low + 1);
        lemma_pow2_unfold(53);
        assert(part * pow2(high) >= 2 * (part * pow2(low))) by (nonlinear_arith)
            requires
                pow2(high) >= 2 * pow2(low),
        ;
        assert(whole * pow2(53) == 2 * (whole * pow2(52))) by (nonlinear_arith)
            requires
                pow2(53) == 2 * pow2(52),
        ;
    }
}

/// A quotient below 1 has such a number of places.
pub proof fn lemma_places_exist(part: nat, whole: nat) -> (k: nat)
    requires
        0 < part < whole <= 0xFFFF_FFFF,
    ensures
        53 <= k <= 84,
        crate::single::fills_double(part, whole, k),
        crate::single::places(part, whole) == k,
{
    lemma2_to64();
    lemma_pow2_pos(52);
    lemma_pow2_unfold(53);
    assert(part * pow2(52) < whole * pow2(52)) by (nonlinear_arith)
        requires
            part < whole,
            pow2(52) > 0,
    ;
    let k: nat = lemma_places_from(part, whole, 52);
    lemma_places(part, whole, k);
    k
}

/// The search for the number of places, from a number that is too small.
proof fn lemma_places_from(part: nat, whole: nat, k: nat) -> (r: nat)
    requires
        0 < part,
        whole <= 0xFFFF_FFFF,
        part * pow2(k) < whole * pow2(52),
    ensures
        k < r <= 84,
        crate::single::fills_double(part, whole, r),
    decreases 84 - k,
{
    lemma_exponent_bound(part, whole, k);
    lemma_pow2_unfold(k + 1);
    lemma_pow2_unfold(53);
    assert(part * pow2(k + 1) == 2 * (part * pow2(k))) by (nonlinear_arith)
        requires
            pow2(k + 1) == 2 * pow2(k),
    ;
    assert(whole * pow2(53) == 2 * (whole * pow2(52))) by (nonlinear_arith)
        requires
            pow2(53) == 2 * pow2(52),
    ;
    if part * pow2(k + 1) < whole * pow2(52) {
        lemma_places_from(part, whole, k + 1)
    } else {
        k + 1
    }
}

/// The significand of a quotient in double precision has 53 digits, or is the next power
/// of two.
pub proof fn lemma_double_bounds(part: nat, whole: nat, k: nat)
    requires
        whole > 0,
        crate::single::fills_double(part, whole, k),
    ensures
        pow2(52) <= crate::single::nearest_whole(part * pow2(k), whole) <= pow2(53),
{
    let num: nat = part * pow2(k);
    let below: nat = num / whole;
    let rest: nat = num % whole;
    assert(num == below * whole + rest && rest < whole) by (nonlinear_arith)
        requires
            whole > 0,
            below == num / whole,
            rest == num % whole,
    ;
    assert(below >= pow2(52)) by (nonlinear_arith)
        requires
            whole * pow2(52) <= below * whole + rest,
            rest < whole,
    ;
    assert(below < pow2(53)) by (nonlinear_arith)
        requires
            below * whole + rest < whole * pow2(53),
            whole > 0,
            rest >= 0,
    ;
}

/// A double-precision number with `k` binary places is known exactly.
proof fn lemma_about_double_number(n: nat, k: nat)
    requires
        k < 149,
    ensures
        crate::rounding::is_about(
            n,
            false,
            149 - k,
            n * crate::single::units_in_one(),
            pow2(k),
        ),
{
    lemma2_to64();
    lemma_pow2_adds(k, (149 - k) as nat);
    lemma_pow2_pos(149);
    assert((n + 1) * pow2(149) == n * pow2(149) + pow2(149)) by (nonlinear_arith);
    assert((n * pow2(149)) * 1 == n * pow2(149));
}

impl Single {
    /// The single nearest to a whole number.
    pub fn from_whole(n: u32) -> (r: Single)
        ensures
            r == Single::of_whole(n as nat),
    {
        proof {
            lemma_about_whole(n as nat, 149);
        }
        let p: u32 = round(
            n as u128,
            false,
            149,
            Ghost(n as nat * pow2(149)),
            Ghost(1),
        );
        Single { bits: p }
    }

    /// The quotient of two whole numbers, the first of which is the smaller, rounded to
    /// double and then to single precision.
    pub fn share(part: u32, whole: u32) -> (r: Single)
        requires
            0 < part < whole,
        ensures
            r == Single::of_share(part as nat, whole as nat),
    {
        proof {
            lemma2_to64();
            lemma2_to64_rest();
        }
        let low: u128 = whole as u128 * 0x10_0000_0000_0000;
        let mut wide: u128 = part as u128 * 0x10_0000_0000_0000;
        let mut k: u32 = 52;
        while wide < low
            invariant
                0 < part < whole,
                pow2(52) == 0x10_0000_0000_0000,
                pow2(53) == 0x20_0000_0000_0000,
                low == whole * pow2(52),
                wide == part * pow2(k as nat),
                wide < whole * pow2(53),
                52 <= k <= 84,
            decreases 84 - k,
        {
            proof {
                lemma_pow2_unfold((k + 1) as nat);
                assert(part * pow2((k + 1) as nat) == 2 * (part * pow2(k as nat)))
                    by (nonlinear_arith)
                    requires
                        pow2((k + 1) as nat) == 2 * pow2(k as nat),
                ;
                lemma_exponent_bound(part as nat, whole as nat, k as nat);
            }
            wide = wide * 2;
            k = k + 1;
        }
        proof {
            assert(crate::single::fills_double(part as nat, whole as nat, k as nat));
            lemma_places(part as nat, whole as nat, k as nat);
            lemma_double_bounds(part as nat, whole as nat, k as nat);
        }
        let below: u128 = wide / whole as u128;
        let rest: u128 = wide % whole as u128;
        let n: u128 = if 2 * rest > whole as u128 || 2 * rest == whole as u128 && below % 2 == 1 {
            below + 1
        } else {
            below
        };
        proof {
            lemma_pow2_pos(k as nat);
            lemma_about_double_number(n as nat, k as nat);
        }
        let p: u32 = round(
            n,
            false,
            149 - k as i32,
            Ghost(n as nat * crate::single::units_in_one()),
            Ghost(pow2(k as nat)),
        );
        Single { bits: p }
    }

    /// The single with the given pattern and sign.
    fn signed(negative: bool, p: u32) -> (r: Single)
        requires
            p < SIGN,
        ensures
            r == Single::with_sign(negative, p as nat),
    {
        if negative {
            Single { bits: SIGN + p }
        } else {
            Single { bits: p }
        }
    }

    /// `self - other`.
    pub fn minus(self, other: Single) -> (r: Single)
        ensures
            r == self.difference(other),
    {
        let p: u32 = self.bits % SIGN;
        let q: u32 = other.bits % SIGN;
        if p > INFINITY || q > INFINITY {
            return Single { bits: QUIET_NAN };
        }
        let minus_p: bool = self.bits >= SIGN;
        let minus_q: bool = other.bits >= SIGN;
        if p == INFINITY {
            if q == INFINITY && minus_p == minus_q {
                return Single { bits: QUIET_NAN };
            }
            return self;
        }
        if q == INFINITY {
            return other.negate();
        }
        proof {
            crate::single::lemma_magnitude_iff(p as nat, q as nat);
            crate::single::lemma_magnitude_iff(p as nat, 0);
            crate::single::lemma_magnitude_iff(q as nat, 0);
        }
        let add_up: bool = minus_p != minus_q;
        if add_up && p == 0 && q == 0 {
            return Single::signed(minus_p, 0);
        }
        if !add_up && p == q {
            return Single { bits: 0 };
        }
        let size: u32 = combine(p, q, add_up);
        let below_zero: bool = if add_up {
            minus_p
        } else {
            minus_p == (p > q)
        };
        Single::signed(below_zero, size)
    }

    /// `self + other`.
    pub fn plus(self, other: Single) -> (r: Single)
        ensures
            r == self.sum(other),
    {
        self.minus(other.negate())
    }

    /// `self * other`.
    pub fn times(self, other: Single) -> (r: Single)
        ensures
            r == self.product(other),
    {
        let p: u32 = self.bits % SIGN;
        let q: u32 = other.bits % SIGN;
        if p > INFINITY || q > INFINITY {
            return Single { bits: QUIET_NAN };
        }
        let negative: bool = (self.bits >= SIGN) != (other.bits >= SIGN);
        if p == INFINITY || q == INFINITY {
            if p == 0 || q == 0 {
                return Single { bits: QUIET_NAN };
            }
            return Single::signed(negative, INFINITY);
        }
        let (ta, ea): (u32, u32) = parts(p);
        let (tb, eb): (u32, u32) = parts(q);
        proof {
            lemma_about_product(ta as nat, ea as nat, tb as nat, eb as nat);
            lemma_pow2_pos(149);
            assert(ta * tb <= 0x100_0000 * 0x100_0000) by (nonlinear_arith)
                requires
                    ta < 0x100_0000,
                    tb < 0x100_0000,
            ;
        }
        let size: u32 = round(
            ta as u128 * tb as u128,
            false,
            ea as i32 + eb as i32 - 149,
            Ghost(
                crate::single::magnitude(p as nat) * crate::single::magnitude(q as nat),
            ),
            Ghost(pow2(149)),
        );
        Single::signed(negative, size)
    }

    /// `self / other`.
    pub fn over(self, other: Single) -> (r: Single)
        ensures
            r == self.quotient(other),
    {
        let p: u32 = self.bits % SIGN;
        let q: u32 = other.bits % SIGN;
        if p > INFINITY || q > INFINITY {
            return Single { bits: QUIET_NAN };
        }
        let negative: bool = (self.bits >= SIGN) != (other.bits >= SIGN);
        if p == INFINITY {
            if q == INFINITY {
                return Single { bits: QUIET_NAN };
            }
            return Single::signed(negative, INFINITY);
        }
        if q == INFINITY {
            return Single::signed(negative, 0);
        }
        if q == 0 {
            if p == 0 {
                return Single { bits: QUIET_NAN };
            }
            return Single::signed(negative, INFINITY);
        }
        let (ta, ea): (u32, u32) = parts(p);
        let (tb, eb): (u32, u32) = parts(q);
        let wide: u128 = ta as u128 * 0x1000_0000_0000_0000;
        let x: u128 = wide / tb as u128;
        let rest: u128 = wide % tb as u128;
        proof {
            crate::single::lemma_magnitude_iff(q as nat, 0);
            assert(wide == x * tb + rest) by (nonlinear_arith)
                requires
                    x == wide / tb as u128,
                    rest == wide % tb as u128,
                    tb > 0,
            ;
            lemma_about_quotient(
                ta as nat,
                ea as nat,
                tb as nat,
                eb as nat,
                x as nat,
                rest as nat,
            );
            if ta > 0 {
                assert(x >= 0x100_0000) by (nonlinear_arith)
                    requires
                        wide == x * tb + rest,
                        wide >= 0x1000_0000_0000_0000,
                        rest < tb,
                        tb < 0x100_0000,
                ;
            }
            assert(x <= wide) by (nonlinear_arith)
                requires
                    wide == x * tb + rest,
                    tb >= 1,
                    rest >= 0,
            ;
        }
        let size: u32 = round(
            x,
            rest > 0,
            ea as i32 - eb as i32 + 89,
            Ghost(crate::single::magnitude(p as nat) * pow2(149)),
            Ghost(crate::single::magnitude(q as nat)),
        );
        Single::signed(negative, size)
    }
}

// ---------------------------------------------------------------------------------------
// Laws
// ---------------------------------------------------------------------------------------

/// The difference of a number and itself is zero.
pub proof fn law_difference_of_same(a: Single)
    requires
        a.finite(),
    ensures
        a.difference(a) == Single::of(0),
{
}

/// A difference is what it would be the other way round, with the other sign.
pub proof fn law_difference_mirrors(a: Single, b: Single)
    requires
        !a.difference(b).nan(),
        a.units() != b.units(),
    ensures
        b.difference(a) == a.difference(b).negated(),
{
    let x: int = a.units() - b.units();
    crate::rounding::lemma_nearest_exists(crate::single::abs_int(x), 1);
    assert(crate::single::abs_int(b.units() - a.units()) == crate::single::abs_int(x));
}

/// Half of a number is the single nearest to half of its units.
pub proof fn law_half(a: Single)
    ensures
        a.finite() ==> a.product(Single::of(ONE_HALF)) == Single::with_sign(
            a.negative(),
            crate::single::nearest(crate::single::magnitude(a.pattern()), 2),
        ),
        !a.finite() && !a.nan() ==> a.product(Single::of(ONE_HALF)) == a,
{
    let m: nat = crate::single::magnitude(a.pattern());
    let c: nat = pow2(148);
    crate::single::lemma_magnitude_of(HIDDEN as nat, 125);
    lemma2_to64();
    lemma_pow2_adds(23, 125);
    lemma_pow2_unfold(149);
    lemma_pow2_pos(148);
    crate::rounding::lemma_nearest_reduced(m, 2, c);
}

/// Rounding to whole numbers keeps the order.
proof fn lemma_nearest_whole_monotone(x: nat, y: nat, den: nat)
    requires
        den > 0,
        x <= y,
    ensures
        crate::single::nearest_whole(x, den) <= crate::single::nearest_whole(y, den),
{
    let p: nat = x / den;
    let q: nat = y / den;
    assert(x == p * den + x % den && x % den < den) by (nonlinear_arith)
        requires
            den > 0,
            p == x / den,
    ;
    assert(y == q * den + y % den && y % den < den) by (nonlinear_arith)
        requires
            den > 0,
            q == y / den,
    ;
    let r: nat = x % den;
    let s: nat = y % den;
    assert(p <= q) by (nonlinear_arith)
        requires
            p * den + r <= q * den + s,
            s < den,
            r >= 0,
            den > 0,
    ;
    if p == q {
        assert(r <= s);
    }
}

/// A share of a larger part is not the smaller one.
pub proof fn law_share_monotone(part: nat, more: nat, whole: nat)
    requires
        0 < part <= more < whole <= 0xFFFF_FFFF,
    ensures
        Single::of_share(part, whole).bits <= Single::of_share(more, whole).bits,
{
    let one: nat = crate::single::units_in_one();
    let j: nat = lemma_places_exist(part, whole);
    let k: nat = lemma_places_exist(more, whole);
    let m: nat = crate::single::nearest_whole(part * pow2(j), whole);
    let n: nat = crate::single::nearest_whole(more * pow2(k), whole);
    lemma_double_bounds(part, whole, j);
    lemma_double_bounds(more, whole, k);
    lemma_pow2_unfold(53);
    if k > j {
        if k > j + 1 {
            lemma_pow2_strictly_increases(j + 1, k);
        }
        lemma_pow2_unfold(j + 1);
        assert(more * pow2(k) >= 2 * (part * pow2(j))) by (nonlinear_arith)
            requires
                pow2(k) >= 2 * pow2(j),
                more >= part,
        ;
        assert(whole * pow2(53) == 2 * (whole * pow2(52))) by (nonlinear_arith)
            requires
                pow2(53) == 2 * pow2(52),
        ;
        assert(k <= j);
    }
    let d: nat = (j - k) as nat;
    lemma_pow2_pos(d);
    lemma_pow2_pos(j);
    lemma_pow2_pos(k);
    lemma_pow2_adds(k, d);
    if d == 0 {
        assert(part * pow2(j) <= more * pow2(j)) by (nonlinear_arith)
            requires
                part <= more,
        ;
        lemma_nearest_whole_monotone(part * pow2(j), more * pow2(j), whole);
        lemma2_to64();
    } else {
        lemma_pow2_unfold(d);
        lemma_pow2_pos((d - 1) as nat);
        assert(m <= n * pow2(d)) by (nonlinear_arith)
            requires
                m <= 2 * pow2(52),
                n >= pow2(52),
                pow2(d) >= 2,
        ;
    }
    assert(m * one <= (n * one) * pow2(d)) by (nonlinear_arith)
        requires
            m <= n * pow2(d),
    ;
    crate::rounding::lemma_nearest_monotone(m * one, (n * one) * pow2(d), pow2(j));
    crate::rounding::lemma_nearest_reduced(n * one, pow2(k), pow2(d));
}

/// A share is between 0 and 1; that of at most the half is at most 0.5.
pub proof fn law_share_bounds(part: nat, whole: nat)
    requires
        0 < part < whole <= 0xFFFF_FFFF,
    ensures
        Single::of_share(part, whole).bits <= ONE,
        2 * part <= whole ==> Single::of_share(part, whole).bits <= ONE_HALF,
{
    let one: nat = crate::single::units_in_one();
    let half: nat = crate::single::magnitude(ONE_HALF as nat);
    let k: nat = lemma_places_exist(part, whole);
    let n: nat = crate::single::nearest_whole(part * pow2(k), whole);
    lemma_double_bounds(part, whole, k);
    lemma_one();
    crate::single::lemma_magnitude_double(ONE_HALF as nat);
    lemma_pow2_pos(k);
    lemma_pow2_unfold(53);
    lemma_pow2_unfold(54);
    if k > 53 {
        lemma_pow2_strictly_increases(53, k);
    }
    crate::rounding::lemma_nearest_exact(ONE as nat, pow2(k));
    assert(n * one <= one * pow2(k)) by (nonlinear_arith)
        requires
            n <= pow2(k),
    ;
    crate::rounding::lemma_nearest_monotone(n * one, one * pow2(k), pow2(k));
    if 2 * part <= whole {
        if k > 54 {
            lemma_pow2_strictly_increases(54, k);
        }
        if k == 53 {
            assert(part * pow2(53) == 2 * part * pow2(52)) by (nonlinear_arith)
                requires
                    pow2(53) == 2 * pow2(52),
            ;
            assert(2 * part * pow2(52) <= whole * pow2(52)) by (nonlinear_arith)
                requires
                    2 * part <= whole,
            ;
            assert(whole * pow2(52) == pow2(52) * whole) by (nonlinear_arith);
            vstd::arithmetic::div_mod::lemma_fundamental_div_mod_converse(
                (part * pow2(k)) as int,
                whole as int,
                pow2(52) as int,
                0,
            );
        }
        assert(2 * n <= pow2(k));
        assert(n * one <= half * pow2(k)) by (nonlinear_arith)
            requires
                2 * n <= pow2(k),
                one == 2 * half,
        ;
        crate::rounding::lemma_nearest_exact(ONE_HALF as nat, pow2(k));
        crate::rounding::lemma_nearest_monotone(n * one, half * pow2(k), pow2(k));
    }
}

/// The number 1.0 as a count of units.
pub proof fn lemma_one()
    ensures
        Single::of(ONE).units() == crate::single::units_in_one(),
        Single::of((SIGN + ONE) as u32).units() == -(crate::single::units_in_one() as int),
        crate::single::magnitude(ONE as nat) == crate::single::units_in_one(),
        crate::single::magnitude((ONE + 1) as nat) >= crate::single::units_in_one() + 2,
        crate::single::units_in_one() > 0,
{
    lemma_pow2_pos(149);
    crate::single::lemma_magnitude_of(HIDDEN as nat, 126);
    crate::single::lemma_magnitude_of((HIDDEN + 1) as nat, 126);
    assert((HIDDEN + 1) * pow2(126) == HIDDEN * pow2(126) + pow2(126)) by (nonlinear_arith);
    lemma2_to64();
    lemma_pow2_adds(23, 126);
    lemma_pow2_strictly_increases(1, 126);
}

} // verus!

//! Sizes on the screen.

use crate::single::Single;
use crate::single::HIDDEN;
use crate::single::ONE;
use vstd::arithmetic::power2::*;
use vstd::prelude::*;

verus! {

/// A height of at least one point, and not beyond all measure.
pub open spec fn is_height(h: Single) -> bool {
    0x3F80_0000 <= h.bits <= 0x5F80_0000
}

/// The size `x` is what `drawn`, counted in units, becomes when `base` points grow or
/// shrink to the height `h`, to a part in 2^20.
pub open spec fn sized(x: Single, drawn: nat, h: Single, base: nat) -> bool {
    &&& x.bits < 0x7F80_0000
    &&& crate::laws::numbers::apart(base * x.units() * pow2(149), drawn * h.units())
        * 0x10_0000 <= drawn * h.units()
}

/// How large a height is.
pub proof fn lemma_height(h: Single)
    requires
        is_height(h),
    ensures
        h.finite(),
        !h.negative(),
        pow2(149) <= h.units() <= pow2(213),
        crate::single::magnitude(0x7F80_0000) == pow2(277),
        crate::single::magnitude(crate::single::INFINITY as nat) == pow2(277),
{
    crate::arithmetic::lemma_one();
    lemma2_to64();
    crate::single::lemma_magnitude_of(HIDDEN as nat, 190);
    lemma_pow2_adds(23, 190);
    crate::single::lemma_magnitude_of(HIDDEN as nat, 254);
    lemma_pow2_adds(23, 254);
    crate::single::lemma_magnitude_monotone(ONE as nat, h.pattern());
    crate::single::lemma_magnitude_monotone(h.pattern(), 0x5F80_0000);
}

/// The scale is the height over the base, to a part in 2^23.
pub proof fn lemma_scale(h: Single, b: Single, base: nat)
    requires
        is_height(h),
        b.finite() && !b.negative(),
        b.units() == base * pow2(149),
        1 <= base <= 100,
    ensures
        ({
            let s: Single = h.quotient(b);
            &&& s.bits < 0x7F80_0000
            &&& s.units() > 0
            &&& crate::laws::numbers::apart(base * s.units(), h.units()) * 0x80_0000 <= h.units()
        }),
{
    let s: Single = h.quotient(b);
    let o: int = pow2(149) as int;
    let x: int = h.units();
    lemma_height(h);
    lemma_pow2_pos(149);
    lemma_pow2_adds(64, 149);
    lemma_pow2_adds(128, 149);
    lemma2_to64();
    lemma2_to64_rest();
    lemma_pow2_adds(64, 64);
    assert(x * o < pow2(277) * (base * o)) by (nonlinear_arith)
        requires
            0 < x <= pow2(213),
            o > 0,
            base >= 1,
            pow2(213) == 0x1_0000_0000_0000_0000 * o,
            pow2(277) == 0x1_0000_0000_0000_0000 * 0x1_0000_0000_0000_0000 * o,
    ;
    assert(x * o >= 0) by (nonlinear_arith)
        requires
            x > 0,
            o > 0,
    ;
    assert(b.units() > 0) by (nonlinear_arith)
        requires
            b.units() == base * o,
            base >= 1,
            o > 0,
    ;
    crate::laws::numbers::law_quotient_close(h, b);
    crate::laws::numbers::law_quotient_nearest(h, b, h);
    let y: int = s.units();
    assert(y * (base * o) == (base * y) * o) by (nonlinear_arith);
    let d: int = crate::laws::numbers::apart(base * y, x);
    assert(crate::laws::numbers::apart(y * (base * o), x * o) == d * o) by (nonlinear_arith)
        requires
            y * (base * o) == (base * y) * o,
            d == crate::laws::numbers::apart(base * y, x),
            o > 0,
    ;
    assert(d * 0x100_0000 <= x + 0x80_0000 * base) by (nonlinear_arith)
        requires
            (d * o) * 0x100_0000 <= x * o + 0x80_0000 * (base * o),
            o > 0,
    ;
    lemma_pow2_strictly_increases(60, 149);
    assert(0x80_0000 * base <= x);
    assert(d * 0x80_0000 <= x);
    assert(base * y >= x - d && d < x);
    assert(y > 0) by (nonlinear_arith)
        requires
            base * y > 0,
            base >= 1,
    ;
    assert(y <= base * y) by (nonlinear_arith)
        requires
            y > 0,
            base >= 1,
    ;
    lemma_pow2_strictly_increases(214, 277);
    lemma_pow2_unfold(214);
    assert(y < pow2(277));
    if s.pattern() >= 0x7F80_0000 {
        crate::single::lemma_magnitude_monotone(0x7F80_0000, s.pattern());
    }
}

/// A size, times the scale.
proof fn lemma_scaled(cx: Single, h: Single, b: Single, base: nat)
    requires
        is_height(h),
        b.finite() && !b.negative(),
        b.units() == base * pow2(149),
        1 <= base <= 100,
        cx.finite() && !cx.negative(),
        pow2(140) <= cx.units() <= pow2(181),
    ensures
        ({
            let r: Single = cx.product(h.quotient(b));
            &&& r.bits < 0x7F80_0000
            &&& r.units() > 0
            &&& crate::laws::numbers::apart(base * r.units() * pow2(149), cx.units() * h.units())
                * 0x20_0000 <= cx.units()
                * h.units()
        }),
{
    let s: Single = h.quotient(b);
    let r: Single = cx.product(s);
    let o: int = pow2(149) as int;
    let c: int = cx.units();
    let x: int = h.units();
    let y: int = s.units();
    let z: int = r.units();
    lemma_height(h);
    lemma_scale(h, b, base);
    lemma_pow2_pos(149);
    lemma2_to64();
    lemma2_to64_rest();
    // No overflow.
    assert(base * y <= 2 * x);
    assert(y <= 2 * x) by (nonlinear_arith)
        requires
            base * y <= 2 * x,
            base >= 1,
            y > 0,
    ;
    lemma_pow2_unfold(214);
    lemma_pow2_adds(181, 214);
    lemma_pow2_adds(277, 149);
    lemma_pow2_strictly_increases(395, 426);
    assert(c * y <= pow2(181) * pow2(214)) by (nonlinear_arith)
        requires
            0 <= c <= pow2(181),
            0 <= y <= pow2(214),
    ;
    assert(0 <= c * y) by (nonlinear_arith)
        requires
            0 <= c,
            0 <= y,
    ;
    crate::laws::numbers::law_product_close(cx, s);
    crate::laws::numbers::law_product_nearest(cx, s, s);
    // The scale is not tiny.
    assert(2 * (base * y) >= x);
    assert(200 * y >= o) by (nonlinear_arith)
        requires
            2 * (base * y) >= x,
            x >= o,
            base <= 100,
            y > 0,
    ;
    lemma_pow2_adds(32, 108);
    lemma_pow2_pos(108);
    assert(pow2(140) >= 0x1_0000_0000) by (nonlinear_arith)
        requires
            pow2(140) == 0x1_0000_0000 * pow2(108),
            pow2(108) > 0,
    ;
    assert(0x80_0000 * o <= c * y) by (nonlinear_arith)
        requires
            200 * y >= o,
            c >= 0x1_0000_0000,
            o > 0,
            y > 0,
    ;
    let e: int = crate::laws::numbers::apart(z * o, c * y);
    assert(e * 0x80_0000 <= c * y);
    let cy: int = c * y;
    let bcy: int = base * cy;
    let bzo: int = base * (z * o);
    let cx_: int = c * x;
    assert(crate::laws::numbers::apart(bzo, bcy) == base * e) by (nonlinear_arith)
        requires
            bzo == base * (z * o),
            bcy == base * cy,
            e == crate::laws::numbers::apart(z * o, cy),
            base >= 1,
    ;
    assert((base * e) * 0x80_0000 <= bcy) by (nonlinear_arith)
        requires
            e * 0x80_0000 <= cy,
            bcy == base * cy,
            base >= 1,
    ;
    let d: int = crate::laws::numbers::apart(base * y, x);
    assert(bcy == c * (base * y)) by (nonlinear_arith)
        requires
            bcy == base * (c * y),
    ;
    assert(crate::laws::numbers::apart(bcy, cx_) == c * d) by (nonlinear_arith)
        requires
            bcy == c * (base * y),
            cx_ == c * x,
            d == crate::laws::numbers::apart(base * y, x),
            c >= 0,
    ;
    assert((c * d) * 0x80_0000 <= cx_) by (nonlinear_arith)
        requires
            d * 0x80_0000 <= x,
            cx_ == c * x,
            c >= 0,
    ;
    assert(bcy <= 2 * cx_) by (nonlinear_arith)
        requires
            bcy == c * (base * y),
            cx_ == c * x,
            base * y <= 2 * x,
            c >= 0,
    ;
    assert(crate::laws::numbers::apart(bzo, cx_) <= base * e + c * d);
    assert(crate::laws::numbers::apart(bzo, cx_) * 0x80_0000 <= 3 * cx_);
    assert(base * z * o == bzo) by (nonlinear_arith)
        requires
            bzo == base * (z * o),
    ;
    // The result is a finite number above zero.
    assert(cx_ > 0) by (nonlinear_arith)
        requires
            cx_ == c * x,
            c > 0,
            x > 0,
    ;
    assert(bzo > 0);
    assert(z > 0) by (nonlinear_arith)
        requires
            base * (z * o) > 0,
            base >= 1,
            o > 0,
    ;
    assert(cx_ <= pow2(181) * pow2(213)) by (nonlinear_arith)
        requires
            cx_ == c * x,
            0 <= c <= pow2(181),
            0 <= x <= pow2(213),
    ;
    lemma_pow2_adds(181, 213);
    lemma_pow2_unfold(395);
    assert(bzo < pow2(396)) by {
        lemma_pow2_unfold(396);
        lemma_pow2_pos(394);
    }
    assert(z * o <= bzo) by (nonlinear_arith)
        requires
            bzo == base * (z * o),
            base >= 1,
            z > 0,
            o > 0,
    ;
    lemma_pow2_strictly_increases(396, 426);
    if r.pattern() >= 0x7F80_0000 {
        crate::single::lemma_magnitude_monotone(0x7F80_0000, r.pattern());
        assert(z * o >= pow2(277) * o) by (nonlinear_arith)
            requires
                z >= pow2(277),
                o > 0,
        ;
    }
}

/// A whole number of points, times the scale.
proof fn lemma_whole_scaled(n: nat, h: Single, b: Single, base: nat)
    requires
        is_height(h),
        b.finite() && !b.negative(),
        b.units() == base * pow2(149),
        1 <= base <= 100,
        1 <= n <= 0x8000_0000,
    ensures
        sized(Single::of_whole(n).product(h.quotient(b)), n * pow2(149), h, base),
        Single::of_whole(n).product(h.quotient(b)).units() > 0,
{
    let cx: Single = Single::of_whole(n);
    let o: int = pow2(149) as int;
    let c: int = cx.units();
    let x: int = h.units();
    let no: int = n * o;
    lemma_height(h);
    crate::laws::numbers::law_whole(n);
    lemma2_to64();
    lemma2_to64_rest();
    lemma_pow2_adds(32, 149);
    lemma_pow2_strictly_increases(60, 140);
    lemma_pow2_strictly_increases(140, 149);
    assert(o <= no <= 0x8000_0000 * o) by (nonlinear_arith)
        requires
            no == n * o,
            1 <= n <= 0x8000_0000,
            o > 0,
    ;
    let e: int = crate::laws::numbers::apart(c, no);
    assert(e * 0x80_0000 <= no);
    lemma_pow2_unfold(141);
    if 141 < 149 {
        lemma_pow2_strictly_increases(141, 149);
    }
    assert(pow2(140) <= c);
    assert(c <= pow2(181));
    lemma_scaled(cx, h, b, base);
    let z: int = cx.product(h.quotient(b)).units();
    let bzo: int = base * z * o;
    let cxx: int = c * x;
    let nox: int = no * x;
    assert(crate::laws::numbers::apart(cxx, nox) == e * x) by (nonlinear_arith)
        requires
            cxx == c * x,
            nox == no * x,
            e == crate::laws::numbers::apart(c, no),
            x > 0,
    ;
    assert((e * x) * 0x80_0000 <= nox) by (nonlinear_arith)
        requires
            e * 0x80_0000 <= no,
            nox == no * x,
            x > 0,
    ;
    assert(nox > 0) by (nonlinear_arith)
        requires
            nox == no * x,
            no > 0,
            x > 0,
    ;
    assert(cxx <= nox + e * x);
    assert(crate::laws::numbers::apart(bzo, nox) <= crate::laws::numbers::apart(bzo, cxx) + e * x);
    assert(crate::laws::numbers::apart(bzo, nox) * 0x10_0000 <= nox);
}

/// The height that the widgets were drawn with, as a single.
proof fn lemma_base()
    ensures
        Single::of_whole(56).finite() && !Single::of_whole(56).negative(),
        Single::of_whole(56).units() == 56 * pow2(149),
        Single::of_whole(80).finite() && !Single::of_whole(80).negative(),
        Single::of_whole(80).units() == 80 * pow2(149),
{
    lemma2_to64();
    crate::layout::lemma_whole_exact(56, 18);
    crate::layout::lemma_whole_exact(80, 17);
}

/// A size of `n` points is `n` times the height over 56.
pub proof fn law_size(n: nat, h: Single)
    requires
        is_height(h),
        1 <= n <= 0x8000_0000,
    ensures
        sized(crate::layout::scaled(n, h), n * pow2(149), h, 56),
        crate::layout::scaled(n, h).units() > 0,
{
    lemma_base();
    lemma_whole_scaled(n, h, Single::of_whole(56), 56);
}

/// A size of half points is as many half points times the height over 56.
pub proof fn law_half_size(h: Single)
    requires
        is_height(h),
    ensures
        sized(crate::widgets::scaled_pattern(0x3F00_0000, h), pow2(148), h, 56),
        sized(crate::widgets::scaled_pattern(0x3FC0_0000, h), 3 * pow2(148), h, 56),
        sized(crate::widgets::scaled_pattern(0x4020_0000, h), 5 * pow2(148), h, 56),
        sized(crate::widgets::scaled_pattern(0x4060_0000, h), 7 * pow2(148), h, 56),
{
    lemma_base();
    lemma_halves();
    lemma_scaled(Single::of(0x3F00_0000), h, Single::of_whole(56), 56);
    lemma_scaled(Single::of(0x3FC0_0000), h, Single::of_whole(56), 56);
    lemma_scaled(Single::of(0x4020_0000), h, Single::of_whole(56), 56);
    lemma_scaled(Single::of(0x4060_0000), h, Single::of_whole(56), 56);
}

/// Halves, as singles.
proof fn lemma_halves()
    ensures
        crate::single::magnitude(0x3F00_0000) == pow2(148),
        crate::single::magnitude(0x3FC0_0000) == 3 * pow2(148),
        crate::single::magnitude(0x4020_0000) == 5 * pow2(148),
        crate::single::magnitude(0x4060_0000) == 7 * pow2(148),
        pow2(140) <= pow2(148),
        7 * pow2(148) <= pow2(181),
{
    lemma2_to64();
    crate::single::lemma_magnitude_of(0x80_0000, 125);
    crate::single::lemma_magnitude_of(0xC0_0000, 126);
    crate::single::lemma_magnitude_of(0xA0_0000, 127);
    crate::single::lemma_magnitude_of(0xE0_0000, 127);
    lemma_pow2_adds(23, 125);
    lemma_pow2_adds(22, 126);
    lemma_pow2_adds(21, 127);
    lemma_pow2_adds(3, 148);
    lemma_pow2_strictly_increases(140, 148);
    lemma_pow2_strictly_increases(151, 181);
    lemma_pow2_pos(148);
}

/// The panel's margins are 4, 8 and 14 points, and its corners 14, times the height of the
/// window over 80.
pub proof fn law_panel(window: Single)
    requires
        is_height(window),
    ensures
        ({
            let p: crate::layout::Panel = crate::layout::panel(window);
            &&& sized(p.corner, 14 * pow2(149), window, 80)
            &&& sized(p.side, 14 * pow2(149), window, 80)
            &&& sized(p.outer, 4 * pow2(149), window, 80)
            &&& sized(p.top, 8 * pow2(149), window, 80)
        }),
{
    lemma_base();
    lemma_whole_scaled(14, window, Single::of_whole(80), 80);
    lemma_whole_scaled(4, window, Single::of_whole(80), 80);
    lemma_whole_scaled(8, window, Single::of_whole(80), 80);
}

} // verus!

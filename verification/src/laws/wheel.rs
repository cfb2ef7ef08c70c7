//! The steering wheel.

use crate::color::Palette;
use crate::frame::WidgetView;
use crate::overlay::Overlay;
use crate::single::Single;
use vstd::arithmetic::power2::*;
use vstd::prelude::*;

verus! {

/// The number pi, counted in units.
pub open spec fn pi() -> int {
    crate::single::magnitude(0x4049_0FDB) as int
}

/// The angle, in radians, of a spoke that stands at `thirds` thirds of a turn from the top
/// on a wheel that is turned by the share `steer` of a quarter turn, to the right if it is
/// positive. Sixfold and in units, the angle is 4 pi a third, less 3 pi for the top, and
/// 3 pi for the whole share; it is met to a part in ten thousand of a radian.
pub open spec fn points_at(angle: Single, thirds: int, steer: int) -> bool {
    crate::laws::numbers::apart(
        6 * angle.units() * pow2(149),
        (4 * thirds - 3) * pi() * pow2(149) + 3 * steer * pi(),
    ) <= pow2(136) * pow2(149)
}

/// How large pi is.
proof fn lemma_pi()
    ensures
        pi() == 0xC9_0FDB * pow2(127),
        3 * pow2(149) <= pi() <= 4 * pow2(149),
        pow2(149) == 0x40_0000 * pow2(127),
        pow2(149) == 0x8_0000 * pow2(130),
        pow2(136) == 64 * pow2(130),
        pow2(130) == 8 * pow2(127),
        pow2(127) >= 0x1_0000_0000,
        crate::single::magnitude(0x7F80_0000) == 0x1_0000_0000 * (0x1_0000_0000 * (0x1_0000_0000 * (
        0x1_0000_0000 * pow2(149)))),
{
    lemma2_to64();
    crate::single::lemma_magnitude_of(0xC9_0FDB, 127);
    lemma_pow2_adds(22, 127);
    lemma_pow2_adds(19, 130);
    lemma_pow2_adds(6, 130);
    lemma_pow2_adds(3, 127);
    lemma_pow2_pos(127);
    lemma_pow2_strictly_increases(32, 127);
    crate::single::lemma_magnitude_of(0x80_0000, 254);
    lemma_pow2_adds(23, 254);
    lemma_pow2_adds(32, 149);
    lemma_pow2_adds(32, 181);
    lemma_pow2_adds(32, 213);
    lemma_pow2_adds(32, 245);
}

/// A single up to 64 is finite.
proof fn lemma_small(x: Single)
    requires
        !x.nan(),
        crate::laws::numbers::apart(x.units(), 0) <= 64 * pow2(149),
    ensures
        x.finite(),
{
    lemma_pi();
    if x.pattern() >= 0x7F80_0000 {
        crate::single::lemma_magnitude_monotone(0x7F80_0000, x.pattern());
    }
}

/// A product of up to 16 is met to a part in 2^19.
proof fn lemma_times(a: Single, b: Single)
    requires
        a.finite(),
        b.finite(),
        crate::laws::numbers::apart(a.units() * b.units(), 0) <= 16 * (pow2(149) * pow2(149)),
    ensures
        a.product(b).finite(),
        crate::laws::numbers::apart(a.product(b).units() * pow2(149), a.units() * b.units())
            <= pow2(130) * pow2(149),
        crate::laws::numbers::apart(a.product(b).units(), 0) <= 17 * pow2(149),
{
    let o: int = pow2(149) as int;
    let e: int = pow2(130) as int;
    let ab: int = a.units() * b.units();
    let r: int = a.product(b).units();
    lemma_pi();
    assert(16 * (o * o) < (0x1_0000_0000 * (0x1_0000_0000 * (0x1_0000_0000 * (0x1_0000_0000 * o))))
        * o) by (nonlinear_arith)
        requires
            o > 0,
    ;
    crate::laws::numbers::law_product_close(a, b);
    let d: int = crate::laws::numbers::apart(r * o, ab);
    assert(o * o == 0x8_0000 * (e * o)) by (nonlinear_arith)
        requires
            o == 0x8_0000 * e,
    ;
    assert(0x80_0000 * o <= 0x80_0000 * (e * o)) by (nonlinear_arith)
        requires
            e >= 1,
            o > 0,
    ;
    assert(d <= e * o);
    assert(crate::laws::numbers::apart(r * o, 0) <= 17 * (o * o));
    assert(crate::laws::numbers::apart(r, 0) <= 17 * o) by (nonlinear_arith)
        requires
            crate::laws::numbers::apart(r * o, 0) <= 17 * (o * o),
            o > 0,
    ;
    lemma_small(a.product(b));
}

/// A sum of up to 16 is met to a part in 2^19.
proof fn lemma_plus(a: Single, b: Single)
    requires
        a.finite(),
        b.finite(),
        crate::laws::numbers::apart(a.units() + b.units(), 0) <= 16 * pow2(149),
    ensures
        a.sum(b).finite(),
        crate::laws::numbers::apart(a.sum(b).units(), a.units() + b.units()) <= pow2(130),
{
    lemma_pi();
    crate::laws::numbers::law_sum_close(a, b);
    lemma_small(a.sum(b));
}

/// A difference of up to 16 is met to a part in 2^19.
proof fn lemma_minus(a: Single, b: Single)
    requires
        a.finite(),
        b.finite(),
        crate::laws::numbers::apart(a.units(), b.units()) <= 16 * pow2(149),
    ensures
        a.difference(b).finite(),
        crate::laws::numbers::apart(a.difference(b).units(), a.units() - b.units()) <= pow2(130),
{
    lemma_pi();
    crate::laws::numbers::law_difference_close(a, b);
    lemma_small(a.difference(b));
}

/// A quotient by 2 or 3 is met to a part in 2^19.
proof fn lemma_over(a: Single, b: Single, n: int)
    requires
        a.finite(),
        b.finite(),
        1 <= n <= 4,
        b.units() == n * pow2(149),
        crate::laws::numbers::apart(a.units(), 0) <= 17 * pow2(149),
    ensures
        a.quotient(b).finite(),
        crate::laws::numbers::apart(n * a.quotient(b).units(), a.units()) <= pow2(130),
        crate::laws::numbers::apart(a.quotient(b).units(), 0) <= 18 * pow2(149),
{
    let o: int = pow2(149) as int;
    let x: int = a.units();
    let r: int = a.quotient(b).units();
    lemma_pi();
    lemma_pow2_pos(149);
    assert(crate::laws::numbers::apart(x * o, 0) == crate::laws::numbers::apart(x, 0) * o)
        by (nonlinear_arith)
        requires
            o > 0,
    ;
    assert(crate::laws::numbers::apart(x, 0) * o <= (17 * o) * o) by (nonlinear_arith)
        requires
            crate::laws::numbers::apart(x, 0) <= 17 * o,
            o > 0,
    ;
    assert((17 * o) * o < (0x1_0000_0000 * (0x1_0000_0000 * (0x1_0000_0000 * (0x1_0000_0000 * o))))
        * (n * o)) by (nonlinear_arith)
        requires
            o > 0,
            n >= 1,
    ;
    assert(n * o > 0) by (nonlinear_arith)
        requires
            o > 0,
            n >= 1,
    ;
    crate::laws::numbers::law_quotient_close(a, b);
    let d: int = crate::laws::numbers::apart(n * r, x);
    assert(crate::laws::numbers::apart(r * (n * o), x * o) == d * o) by (nonlinear_arith)
        requires
            d == crate::laws::numbers::apart(n * r, x),
            o > 0,
    ;
    assert(d * 0x100_0000 <= crate::laws::numbers::apart(x, 0) + 0x80_0000 * n) by (nonlinear_arith)
        requires
            (d * o) * 0x100_0000 <= crate::laws::numbers::apart(x, 0) * o + 0x80_0000 * (n * o),
            o > 0,
    ;
    assert(crate::laws::numbers::apart(n * r, 0) <= 18 * o);
    assert(crate::laws::numbers::apart(r, 0) <= crate::laws::numbers::apart(n * r, 0))
        by (nonlinear_arith)
        requires
            n >= 1,
    ;
    lemma_small(a.quotient(b));
}

/// Small whole numbers, as singles.
proof fn lemma_wholes()
    ensures
        Single::of_whole(0).finite() && Single::of_whole(0).units() == 0,
        Single::of_whole(1).finite() && Single::of_whole(1).units() == pow2(149),
        Single::of_whole(2).finite() && Single::of_whole(2).units() == 2 * pow2(149),
        Single::of_whole(3).finite() && Single::of_whole(3).units() == 3 * pow2(149),
        Single::of(0x3F00_0000).finite() && 2 * Single::of(0x3F00_0000).units() == pow2(149),
        Single::of(0x4049_0FDB).finite() && Single::of(0x4049_0FDB).units() == pi(),
{
    lemma2_to64();
    crate::rounding::lemma_nearest_exact(0, 1);
    crate::layout::lemma_whole_exact(1, 23);
    crate::layout::lemma_whole_exact(2, 22);
    crate::layout::lemma_whole_exact(3, 22);
    crate::arithmetic::lemma_one();
    crate::single::lemma_magnitude_double(0x3F00_0000);
}

/// The spoke `i` of a wheel that stands straight.
proof fn lemma_straight(i: nat)
    requires
        i <= 2,
    ensures
        ({
            let base: Single = Single::of_whole(i).product(Single::of_whole(2)).product(
                Single::of(0x4049_0FDB),
            ).quotient(Single::of_whole(3)).difference(
                Single::of(0x4049_0FDB).quotient(Single::of_whole(2)),
            );
            &&& base.finite()
            &&& crate::laws::numbers::apart(6 * base.units(), (4 * i - 3) * pi()) <= 21 * pow2(130)
            &&& crate::laws::numbers::apart(base.units(), 0) <= 4 * pow2(149)
        }),
{
    let o: int = pow2(149) as int;
    let e: int = pow2(130) as int;
    let p: Single = Single::of(0x4049_0FDB);
    let two: Single = Single::of_whole(2);
    let three: Single = Single::of_whole(3);
    lemma_wholes();
    lemma_pi();
    let n: Single = Single::of_whole(i);
    assert(n.finite() && n.units() == i * o);
    assert(n.units() * two.units() == (2 * i) * (o * o)) by (nonlinear_arith)
        requires
            n.units() == i * o,
            two.units() == 2 * o,
    ;
    assert(0 <= (2 * i) * (o * o) <= 4 * (o * o)) by (nonlinear_arith)
        requires
            i <= 2,
            o > 0,
    ;
    lemma_times(n, two);
    let m1: Single = n.product(two);
    assert(crate::laws::numbers::apart(m1.units(), 2 * i * o) <= e) by (nonlinear_arith)
        requires
            crate::laws::numbers::apart(m1.units() * o, (2 * i) * (o * o)) <= e * o,
            o > 0,
    ;
    let a: int = m1.units();
    assert(crate::laws::numbers::apart(a * pi(), 0) <= 16 * (o * o) + 4 * (e * o))
        by (nonlinear_arith)
        requires
            crate::laws::numbers::apart(a, 2 * i * o) <= e,
            0 <= 2 * i * o <= 4 * o,
            0 < pi() <= 4 * o,
            e > 0,
            o > 0,
    ;
    lemma_pi_product(a, i as int);
    lemma_times(m1, p);
    let m2: Single = m1.product(p);
    let b: int = m2.units();
    assert(crate::laws::numbers::apart(a * pi(), (2 * i * o) * pi()) <= e * (4 * o))
        by (nonlinear_arith)
        requires
            crate::laws::numbers::apart(a, 2 * i * o) <= e,
            0 < pi() <= 4 * o,
            e > 0,
    ;
    assert((2 * i * o) * pi() == (2 * i * pi()) * o) by (nonlinear_arith);
    assert(crate::laws::numbers::apart(b * o, (2 * i * pi()) * o) <= 5 * (e * o))
        by (nonlinear_arith)
        requires
            crate::laws::numbers::apart(b * o, a * pi()) <= e * o,
            crate::laws::numbers::apart(a * pi(), (2 * i * pi()) * o) <= e * (4 * o),
    ;
    assert(crate::laws::numbers::apart(b, 2 * i * pi()) <= 5 * e) by (nonlinear_arith)
        requires
            crate::laws::numbers::apart(b * o, (2 * i * pi()) * o) <= 5 * (e * o),
            o > 0,
    ;
    lemma_over(m2, three, 3);
    lemma_over(p, two, 2);
    let m3: Single = m2.quotient(three);
    let hp: Single = p.quotient(two);
    assert(0 <= 2 * i * pi() <= 4 * pi()) by (nonlinear_arith)
        requires
            i <= 2,
            pi() > 0,
    ;
    lemma_minus(m3, hp);
    assert((4 * i - 3) * pi() == 2 * (2 * i * pi()) - 3 * pi()) by (nonlinear_arith);
}

/// The first factor of a spoke's direction, times pi, stays below 16.
proof fn lemma_pi_product(a: int, i: int)
    requires
        0 <= i <= 2,
        crate::laws::numbers::apart(a, 2 * i * pow2(149)) <= pow2(130),
    ensures
        crate::laws::numbers::apart(a * pi(), 0) <= 16 * (pow2(149) * pow2(149)),
{
    let o: int = pow2(149) as int;
    lemma_pi();
    let e: int = pow2(130) as int;
    assert(7 * pi() <= 22 * o + o);
    assert(0 <= 2 * i * o <= 4 * o) by (nonlinear_arith)
        requires
            0 <= i <= 2,
            o > 0,
    ;
    assert(crate::laws::numbers::apart(a, 0) <= 4 * o + e);
    // Pi is less than 3.2, and 4.1 times that is less than 16.
    assert(5 * pi() <= 16 * o);
    assert(10 * crate::laws::numbers::apart(a, 0) <= 41 * o);
    assert(crate::laws::numbers::apart(a * pi(), 0) == crate::laws::numbers::apart(a, 0) * pi())
        by (nonlinear_arith)
        requires
            pi() > 0,
    ;
    assert(50 * (crate::laws::numbers::apart(a, 0) * pi()) <= 656 * (o * o)) by (nonlinear_arith)
        requires
            0 <= 10 * crate::laws::numbers::apart(a, 0) <= 41 * o,
            0 < 5 * pi() <= 16 * o,
            o > 0,
    ;
}

/// The spokes of a wheel point where the steering says, as long as the wheel makes no more
/// than a full turn.
#[verifier::rlimit(30)]
pub proof fn law_spokes(i: nat, steer: Single)
    requires
        i <= 2,
        steer.finite(),
        crate::laws::numbers::apart(steer.units(), 0) <= 4 * pow2(149),
    ensures
        points_at(crate::widgets::spoke_angle(i, steer), i as int, steer.units()),
        crate::widgets::spoke_angle(i, steer).finite(),
{
    let o: int = pow2(149) as int;
    let e: int = pow2(130) as int;
    let p: Single = Single::of(0x4049_0FDB);
    let half: Single = Single::of(0x3F00_0000);
    let s: int = steer.units();
    let base: Single = Single::of_whole(i).product(Single::of_whole(2)).product(p).quotient(
        Single::of_whole(3),
    ).difference(p.quotient(Single::of_whole(2)));
    lemma_wholes();
    lemma_pi();
    lemma_straight(i);
    assert(crate::laws::numbers::apart(s * pi(), 0) == crate::laws::numbers::apart(s, 0) * pi())
        by (nonlinear_arith)
        requires
            pi() > 0,
    ;
    assert(crate::laws::numbers::apart(s, 0) * pi() <= (4 * o) * (4 * o)) by (nonlinear_arith)
        requires
            0 <= crate::laws::numbers::apart(s, 0) <= 4 * o,
            0 < pi() <= 4 * o,
            o > 0,
    ;
    assert((4 * o) * (4 * o) == 16 * (o * o)) by (nonlinear_arith);
    lemma_times(steer, p);
    let q1: Single = steer.product(p);
    let u: int = q1.units();
    assert(2 * (u * half.units()) == u * o) by (nonlinear_arith)
        requires
            2 * half.units() == o,
    ;
    assert(crate::laws::numbers::apart(u * o, 0) <= 17 * (o * o)) by (nonlinear_arith)
        requires
            crate::laws::numbers::apart(u, 0) <= 17 * o,
            o > 0,
    ;
    lemma_times(q1, half);
    let q2: Single = q1.product(half);
    let v: int = q2.units();
    assert(crate::laws::numbers::apart(2 * v, u) <= 2 * e) by (nonlinear_arith)
        requires
            crate::laws::numbers::apart(v * o, u * half.units()) <= e * o,
            2 * (u * half.units()) == u * o,
            o > 0,
    ;
    lemma_plus(base, q2);
    let w: int = base.sum(q2).units();
    let x: int = base.units();
    let c: int = (4 * i - 3) * pi();
    assert(crate::laws::numbers::apart(6 * w, c + 3 * u) <= 6 * e + 21 * e + 6 * e);
    assert(crate::laws::numbers::apart((6 * w) * o, (c + 3 * u) * o) <= 33 * (e * o))
        by (nonlinear_arith)
        requires
            crate::laws::numbers::apart(6 * w, c + 3 * u) <= 33 * e,
            o > 0,
    ;
    assert((c + 3 * u) * o == c * o + 3 * (u * o)) by (nonlinear_arith);
    assert(crate::laws::numbers::apart(c * o + 3 * (u * o), c * o + 3 * (s * pi())) <= 3 * (e * o));
    assert(3 * s * pi() == 3 * (s * pi())) by (nonlinear_arith);
    assert(pow2(136) * o == 64 * (e * o)) by (nonlinear_arith)
        requires
            pow2(136) == 64 * e,
    ;
    assert(e * o >= 0) by (nonlinear_arith)
        requires
            e >= 0,
            o >= 0,
    ;
}

/// Where a wheel is turned by at least a part in a thousand, its first spoke stands to
/// that side of the top.
pub proof fn law_spoke_side(steer: Single)
    requires
        steer.finite(),
        crate::laws::numbers::apart(steer.units(), 0) <= 4 * pow2(149),
    ensures
        steer.units() * 1024 <= -pow2(149) ==> 2 * crate::widgets::spoke_angle(0, steer).units()
            < -pi(),
        steer.units() * 1024 >= pow2(149) ==> 2 * crate::widgets::spoke_angle(0, steer).units()
            > -pi(),
{
    let o: int = pow2(149) as int;
    let e: int = pow2(130) as int;
    let s: int = steer.units();
    let w: int = crate::widgets::spoke_angle(0, steer).units();
    law_spokes(0, steer);
    lemma_pi();
    assert(pow2(136) * o == 64 * (e * o)) by (nonlinear_arith)
        requires
            pow2(136) == 64 * e,
    ;
    assert(o * o == 0x8_0000 * (e * o)) by (nonlinear_arith)
        requires
            o == 0x8_0000 * e,
    ;
    assert(e * o > 0) by (nonlinear_arith)
        requires
            e > 0,
            o > 0,
    ;
    assert((4 * 0 - 3) * pi() * o == -3 * (pi() * o)) by (nonlinear_arith);
    assert(3 * s * pi() == 3 * (s * pi())) by (nonlinear_arith);
    assert(6 * w * o == 3 * ((2 * w) * o)) by (nonlinear_arith);
    if s * 1024 <= -o {
        assert(1024 * (s * pi()) <= -3 * (o * o)) by (nonlinear_arith)
            requires
                s * 1024 <= -o,
                pi() >= 3 * o,
                o > 0,
        ;
        assert((2 * w) * o < -(pi() * o));
        assert(2 * w < -pi()) by (nonlinear_arith)
            requires
                (2 * w) * o < -(pi() * o),
                o > 0,
        ;
    }
    if s * 1024 >= o {
        assert(1024 * (s * pi()) >= 3 * (o * o)) by (nonlinear_arith)
            requires
                s * 1024 >= o,
                pi() >= 3 * o,
                o > 0,
        ;
        assert((2 * w) * o > -(pi() * o));
        assert(2 * w > -pi()) by (nonlinear_arith)
            requires
                (2 * w) * o > -(pi() * o),
                o > 0,
        ;
    }
}

/// Wherever the wheel is shown it is the last widget, and its three spokes point where the
/// device's steering says: straight up and a third of a turn to either side of it when the
/// steering is 0, and a quarter turn further to the right, or to the left, when it is 1, or
/// -1. What the game says of the steering plays no part.
#[verifier::rlimit(30)]
pub proof fn law_wheel_shows_steering(s: Overlay, h: Single, available: Single, colors: Palette)
    requires
        s.show_wheel,
        s.steering.finite(),
        crate::laws::numbers::apart(s.steering.units(), 0) <= 4 * pow2(149),
    ensures
        ({
            let widgets: Seq<WidgetView> = s.widgets(h, available, colors);
            &&& widgets.len() > 0
            &&& widgets[widgets.len() - 1] matches WidgetView::Wheel { width, wheel } && {
                &&& points_at(wheel.spokes.0, 0, s.steering.units())
                &&& points_at(wheel.spokes.1, 1, s.steering.units())
                &&& points_at(wheel.spokes.2, 2, s.steering.units())
                &&& s.steering.units() * 1024 <= -pow2(149) ==> 2 * wheel.spokes.0.units() < -pi()
                &&& s.steering.units() * 1024 >= pow2(149) ==> 2 * wheel.spokes.0.units() > -pi()
            }
        }),
{
    law_spokes(0, s.steering);
    law_spokes(1, s.steering);
    law_spokes(2, s.steering);
    law_spoke_side(s.steering);
}

/// Steering turns every spoke by the same angle, half of pi for each whole of it: whatever the
/// steering is, a spoke stands that far from where it stands without any.
pub proof fn law_spokes_turn(i: nat, steer: Single)
    requires
        i <= 2,
    ensures
        crate::widgets::spoke_angle(i, steer) == crate::widgets::spoke_angle(
            i,
            Single::of(0),
        ).sum(steer.product(Single::of(0x4049_0FDB)).product(Single::of(0x3F00_0000))),
{
    let p: Single = Single::of(0x4049_0FDB);
    let base: Single = Single::of_whole(i).product(Single::of_whole(2)).product(p).quotient(
        Single::of_whole(3),
    ).difference(p.quotient(Single::of_whole(2)));
    lemma_straight(i);
    lemma_pi();
    assert(crate::laws::numbers::apart((4 * i - 3) * pi(), 0) >= pi()) by (nonlinear_arith)
        requires
            i <= 2,
            pi() > 0,
    ;
    lemma_no_turn();
    lemma_adding_nothing(base);
}

/// Without steering there is no turn.
proof fn lemma_no_turn()
    ensures
        Single::of(0).product(Single::of(0x4049_0FDB)).product(Single::of(0x3F00_0000))
            == Single::of(0),
{
    lemma_zero_times(Single::of(0x4049_0FDB));
    lemma_zero_times(Single::of(0x3F00_0000));
}

/// Zero times a number is zero.
proof fn lemma_zero_times(x: Single)
    requires
        x.finite() && !x.negative(),
    ensures
        Single::of(0).product(x) == Single::of(0),
{
    crate::single::lemma_magnitude_of(0, 0);
    lemma_pow2_pos(149);
    crate::rounding::lemma_nearest_exact(0, pow2(149));
    assert(0 * crate::single::magnitude(x.pattern()) == 0 * pow2(149));
}

/// Zero changes nothing.
proof fn lemma_adding_nothing(x: Single)
    requires
        x.finite(),
        x.units() != 0,
    ensures
        x.sum(Single::of(0)) == x,
{
    crate::single::lemma_magnitude_of(0, 0);
    crate::rounding::lemma_nearest_exact(x.pattern(), 1);
}

/// Wheels with the same steering look the same, whatever else differs.
#[verifier::rlimit(30)]
pub proof fn law_wheel_shows_nothing_else(
    s: Overlay,
    t: Overlay,
    h: Single,
    available: Single,
    colors: Palette,
)
    requires
        s.show_wheel && t.show_wheel,
        s.steering == t.steering,
    ensures
        s.widgets(h, available, colors).last()->wheel
            == t.widgets(h, available, colors).last()->wheel,
        s.widgets(h, available, colors).last() is Wheel,
{
}

} // verus!

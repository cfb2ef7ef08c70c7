//! How the window and the row of widgets are laid out.

use crate::layout::Layout;
use crate::layout::Placement;
use crate::single::Single;
use vstd::arithmetic::power2::*;
use vstd::prelude::*;

verus! {

/// The size `x` is `k` parts in 56 of the height, give or take `e` parts in 2^20 of that.
spec fn about(x: Single, k: int, e: int, h: Single) -> bool {
    &&& x.finite() && !x.negative()
    &&& crate::laws::numbers::apart(56 * x.units(), k * h.units()) * 0x10_0000 <= e * h.units()
}

/// A size of `n` points.
proof fn lemma_about(n: nat, h: Single)
    requires
        crate::laws::sizes::is_height(h),
        1 <= n <= 100,
    ensures
        about(crate::layout::scaled(n, h), n as int, n as int, h),
{
    let o: int = pow2(149) as int;
    let y: int = crate::layout::scaled(n, h).units();
    let x: int = h.units();
    crate::laws::sizes::law_size(n, h);
    crate::laws::sizes::lemma_height(h);
    lemma_pow2_pos(149);
    assert(n * pow2(149) * x == (n * x) * o) by (nonlinear_arith)
        requires
            o == pow2(149),
    ;
    assert(56 * y * o == (56 * y) * o) by (nonlinear_arith);
    crate::laws::faces::lemma_cancel(56 * y, n * x, 0x10_0000, o);
}

/// Two sizes, one beside the other.
#[verifier::rlimit(30)]
proof fn lemma_sum(a: Single, ka: int, ea: int, b: Single, kb: int, eb: int, h: Single)
    requires
        crate::laws::sizes::is_height(h),
        about(a, ka, ea, h),
        about(b, kb, eb, h),
        0 <= ka <= 1000,
        0 <= kb <= 1000,
        0 <= ea <= 1000,
        0 <= eb <= 1000,
    ensures
        about(a.sum(b), ka + kb, ea + eb + ka + kb + 1, h),
{
    let x: int = h.units();
    crate::laws::sizes::lemma_height(h);
    assert(ka * x <= 1000 * x && kb * x <= 1000 * x && ea * x <= 1000 * x && eb * x <= 1000 * x)
        by (nonlinear_arith)
        requires
            ka <= 1000,
            kb <= 1000,
            ea <= 1000,
            eb <= 1000,
            x >= 0,
    ;
    assert((ka + kb) * x == ka * x + kb * x) by (nonlinear_arith);
    assert((ea + eb + ka + kb + 1) * x == ea * x + eb * x + ka * x + kb * x + x)
        by (nonlinear_arith);
    lemma2_to64();
    lemma_pow2_adds(13, 213);
    lemma_pow2_strictly_increases(226, 277);
    assert(a.units() <= 20 * x && b.units() <= 20 * x);
    crate::laws::numbers::law_sum_close(a, b);
    lemma_pow2_strictly_increases(60, 149);
    lemma2_to64_rest();
    crate::laws::faces::lemma_not_infinite(a.sum(b), a.sum(b).units(), 226);
    crate::laws::numbers::law_difference_nearest(a, b.negated(), Single::of(0));
    lemma_sum_of(a.units(), ka * x, ea * x, b.units(), kb * x, eb * x, a.sum(b).units(), x);
}

/// The sum of two numbers that are known up to an error.
proof fn lemma_sum_of(a: int, ka: int, ea: int, b: int, kb: int, eb: int, r: int, x: int)
    requires
        a >= 0,
        b >= 0,
        crate::laws::numbers::apart(56 * a, ka) * 0x10_0000 <= ea,
        crate::laws::numbers::apart(56 * b, kb) * 0x10_0000 <= eb,
        ea <= 1000 * x,
        eb <= 1000 * x,
        x >= 0x1_0000_0000_0000,
        crate::laws::numbers::apart(r, a + b) * 0x100_0000 <= a + b + 0x80_0000,
    ensures
        crate::laws::numbers::apart(56 * r, ka + kb) * 0x10_0000 <= ea + eb + ka + kb + x,
{
}

/// A small number is held exactly.
proof fn lemma_count(m: nat)
    requires
        m <= 3,
    ensures
        Single::of_whole(m).finite() && !Single::of_whole(m).negative(),
        Single::of_whole(m).units() == m * pow2(149),
{
    lemma2_to64();
    if m == 0 {
        crate::single::lemma_magnitude_of(0, 0);
        crate::rounding::lemma_nearest_exact(0, 1);
    } else if m == 1 {
        crate::layout::lemma_whole_exact(m, 23);
    } else {
        crate::layout::lemma_whole_exact(m, 22);
    }
}

/// A size, taken `m` times.
#[verifier::rlimit(30)]
proof fn lemma_times(a: Single, k: int, e: int, m: nat, h: Single)
    requires
        crate::laws::sizes::is_height(h),
        about(a, k, e, h),
        0 <= k <= 100,
        0 <= e <= 100,
        m <= 3,
    ensures
        about(a.product(Single::of_whole(m)), k * m, e * m + k * m + 1, h),
{
    let o: int = pow2(149) as int;
    let x: int = h.units();
    let y: int = a.units();
    let w: Single = Single::of_whole(m);
    crate::laws::sizes::lemma_height(h);
    lemma2_to64();
    lemma2_to64_rest();
    lemma_pow2_pos(149);
    lemma_count(m);
    assert(k * x <= 100 * x && e * x <= 100 * x) by (nonlinear_arith)
        requires
            k <= 100,
            e <= 100,
            x >= 0,
    ;
    assert(0 <= y <= 4 * x);
    assert(w.units() == m * o);
    assert(y * (m * o) == (y * m) * o) by (nonlinear_arith);
    assert(0 <= y * m <= 3 * y) by (nonlinear_arith)
        requires
            0 <= m <= 3,
            y >= 0,
    ;
    lemma_pow2_adds(5, 213);
    lemma_pow2_strictly_increases(218, 277);
    assert(0 <= (y * m) * o < pow2(277) * o) by (nonlinear_arith)
        requires
            0 <= y * m < pow2(277),
            o > 0,
    ;
    crate::laws::numbers::law_product_close(a, w);
    let r: int = a.product(w).units();
    let d: int = crate::laws::numbers::apart(r, y * m);
    assert(crate::laws::numbers::apart(r * o, (y * m) * o) == d * o) by (nonlinear_arith)
        requires
            d == crate::laws::numbers::apart(r, y * m),
            o > 0,
    ;
    assert(d * 0x100_0000 <= y * m + 0x80_0000) by (nonlinear_arith)
        requires
            (d * o) * 0x100_0000 <= (y * m) * o + 0x80_0000 * o,
            o > 0,
    ;
    lemma_pow2_strictly_increases(60, 149);
    crate::laws::faces::lemma_not_infinite(a.product(w), r, 218);
    crate::laws::numbers::law_product_nearest(a, w, Single::of(0));
    // How far the exact product is off.
    let da: int = crate::laws::numbers::apart(56 * y, k * x);
    assert(crate::laws::numbers::apart(56 * (y * m), (k * m) * x) <= da * m) by (nonlinear_arith)
        requires
            da == crate::laws::numbers::apart(56 * y, k * x),
            m >= 0,
    ;
    assert((da * m) * 0x10_0000 <= (e * m) * x) by (nonlinear_arith)
        requires
            da * 0x10_0000 <= e * x,
            m >= 0,
    ;
    assert((e * m + k * m + 1) * x == (e * m) * x + (k * m) * x + x) by (nonlinear_arith);
    assert((e * m) * x <= 3 * (100 * x)) by (nonlinear_arith)
        requires
            0 <= m <= 3,
            0 <= e * x <= 100 * x,
    ;
    assert(0 <= (k * m) * x <= 3 * (100 * x)) by (nonlinear_arith)
        requires
            0 <= m <= 3,
            0 <= k * x <= 100 * x,
    ;
}

/// How many points in 56 of the height the widgets beside the graph and the gaps between
/// them take.
pub open spec fn taken(gear: bool, speed: bool, wheel: bool) -> int {
    (if gear {
        48 + 12int
    } else {
        0
    }) + (if speed {
        74 + 12int
    } else {
        0
    }) + (if wheel {
        56 + 12int
    } else {
        0
    }) + 3
}

/// In the row the gap is 12 points, the gear 48 and the speed 74, scaled with the height,
/// and the wheel is as wide as high.
pub proof fn law_row_widths(
    h: Single,
    available: Single,
    gear: bool,
    speed: bool,
    wheel: bool,
)
    requires
        crate::laws::sizes::is_height(h),
    ensures
        ({
            let r: Layout = crate::layout::row(h, available, gear, speed, wheel);
            &&& crate::laws::sizes::sized(r.gap, 12 * pow2(149), h, 56)
            &&& crate::laws::sizes::sized(r.gear, 48 * pow2(149), h, 56)
            &&& crate::laws::sizes::sized(r.speed, 74 * pow2(149), h, 56)
            &&& r.wheel == h
        }),
{
    crate::laws::sizes::law_size(12, h);
    crate::laws::sizes::law_size(48, h);
    crate::laws::sizes::law_size(74, h);
}

/// What the widgets beside the graph and the gaps take.
#[verifier::rlimit(30)]
proof fn lemma_taken(h: Single, gear: bool, speed: bool, wheel: bool)
    requires
        crate::laws::sizes::is_height(h),
    ensures
        ({
            let widgets: Single = crate::layout::added(
                crate::layout::added(
                    crate::layout::added(Single::of(0), crate::layout::scaled(48, h), gear),
                    crate::layout::scaled(74, h),
                    speed,
                ),
                h,
                wheel,
            );
            let gaps: Single = crate::layout::scaled(12, h).product(
                Single::of_whole(
                    crate::layout::one_if(gear) + crate::layout::one_if(speed)
                        + crate::layout::one_if(wheel),
                ),
            ).sum(crate::layout::scaled(3, h));
            about(widgets.sum(gaps), taken(gear, speed, wheel), 1024, h)
        }),
{
    let x: int = h.units();
    let m: nat = crate::layout::one_if(gear) + crate::layout::one_if(speed)
        + crate::layout::one_if(wheel);
    let none: Single = Single::of(0);
    crate::laws::sizes::lemma_height(h);
    lemma_about(48, h);
    lemma_about(74, h);
    lemma_about(12, h);
    lemma_about(3, h);
    crate::single::lemma_magnitude_of(0, 0);
    assert(about(none, 0, 0, h));
    let a: Single = crate::layout::added(none, crate::layout::scaled(48, h), gear);
    let ka: int = if gear {
        48
    } else {
        0
    };
    let ea: int = if gear {
        97
    } else {
        0
    };
    if gear {
        lemma_sum(none, 0, 0, crate::layout::scaled(48, h), 48, 48, h);
    }
    let b: Single = crate::layout::added(a, crate::layout::scaled(74, h), speed);
    let kb: int = if speed {
        ka + 74
    } else {
        ka
    };
    let eb: int = if speed {
        ea + 74 + ka + 74 + 1
    } else {
        ea
    };
    if speed {
        lemma_sum(a, ka, ea, crate::layout::scaled(74, h), 74, 74, h);
    }
    let c: Single = crate::layout::added(b, h, wheel);
    let kc: int = if wheel {
        kb + 56
    } else {
        kb
    };
    let ec: int = if wheel {
        eb + kb + 56 + 1
    } else {
        eb
    };
    if wheel {
        lemma_sum(b, kb, eb, h, 56, 0, h);
    }
    lemma_times(crate::layout::scaled(12, h), 12, 12, m, h);
    let n: int = m as int;
    let g: Single = crate::layout::scaled(12, h).product(Single::of_whole(m));
    lemma_sum(
        g,
        12 * n,
        12 * n + 12 * n + 1,
        crate::layout::scaled(3, h),
        3,
        3,
        h,
    );
    let gaps: Single = g.sum(crate::layout::scaled(3, h));
    let eg: int = 24 * n + 1 + 3 + 12 * n + 3 + 1;
    lemma_sum(c, kc, ec, gaps, 12 * n + 3, eg, h);
    let e: int = ec + eg + kc + 12 * n + 3 + 1;
    assert(kc + 12 * n + 3 == taken(gear, speed, wheel));
    assert(e <= 1024);
    assert(e * x <= 1024 * x) by (nonlinear_arith)
        requires
            e <= 1024,
            x >= 0,
    ;
}

/// The graph takes what the widgets that are shown and the gaps leave of the row, but no
/// less than 60 points, scaled with the height.
#[verifier::rlimit(30)]
pub proof fn law_graph_takes_the_rest(
    h: Single,
    available: Single,
    gear: bool,
    speed: bool,
    wheel: bool,
)
    requires
        crate::laws::sizes::is_height(h),
        available.bits <= 0x5F80_0000,
    ensures
        ({
            let graph: int = crate::layout::row(h, available, gear, speed, wheel).graph.units();
            let rest: int = 56 * available.units() - taken(gear, speed, wheel) * h.units();
            let least: int = 60 * h.units();
            crate::laws::numbers::apart(
                56 * graph,
                if rest > least {
                    rest
                } else {
                    least
                },
            ) * 0x100 <= h.units() + available.units()
        }),
{
    let x: int = h.units();
    let v: int = available.units();
    let widgets: Single = crate::layout::added(
        crate::layout::added(
            crate::layout::added(Single::of(0), crate::layout::scaled(48, h), gear),
            crate::layout::scaled(74, h),
            speed,
        ),
        h,
        wheel,
    );
    let gaps: Single = crate::layout::scaled(12, h).product(
        Single::of_whole(
            crate::layout::one_if(gear) + crate::layout::one_if(speed) + crate::layout::one_if(
                wheel,
            ),
        ),
    ).sum(crate::layout::scaled(3, h));
    let used: Single = widgets.sum(gaps);
    let rest: Single = available.difference(used);
    let least: Single = crate::layout::scaled(60, h);
    crate::laws::sizes::lemma_height(h);
    lemma_taken(h, gear, speed, wheel);
    lemma_about(60, h);
    lemma_available(available);
    let k: int = taken(gear, speed, wheel);
    assert(k * x <= 217 * x) by (nonlinear_arith)
        requires
            k <= 217,
            x >= 0,
    ;
    lemma2_to64();
    lemma2_to64_rest();
    lemma_pow2_adds(5, 213);
    lemma_pow2_strictly_increases(218, 277);
    lemma_pow2_strictly_increases(60, 149);
    assert(0 <= used.units() <= 5 * x);
    crate::laws::numbers::law_difference_close(available, used);
    crate::laws::faces::lemma_not_infinite(rest, rest.units(), 218);
    lemma_larger_units(rest, least);
}

/// Where there is no room at all, or what is left is no number, the graph has its least
/// width.
pub proof fn law_graph_without_room(
    h: Single,
    available: Single,
    gear: bool,
    speed: bool,
    wheel: bool,
)
    requires
        crate::laws::sizes::is_height(h),
        available.bits >= 0x8000_0000 || available.bits > 0x7F80_0000,
    ensures
        crate::laws::sizes::sized(
            crate::layout::row(h, available, gear, speed, wheel).graph,
            60 * pow2(149),
            h,
            56,
        ),
{
    crate::laws::sizes::law_size(60, h);
    lemma_taken(h, gear, speed, wheel);
    let widgets: Single = crate::layout::added(
        crate::layout::added(
            crate::layout::added(Single::of(0), crate::layout::scaled(48, h), gear),
            crate::layout::scaled(74, h),
            speed,
        ),
        h,
        wheel,
    );
    let gaps: Single = crate::layout::scaled(12, h).product(
        Single::of_whole(
            crate::layout::one_if(gear) + crate::layout::one_if(speed) + crate::layout::one_if(
                wheel,
            ),
        ),
    ).sum(crate::layout::scaled(3, h));
    lemma_nothing_left(available, widgets.sum(gaps), crate::layout::scaled(60, h));
}

/// Taking away from nothing leaves nothing.
proof fn lemma_nothing_left(available: Single, used: Single, least: Single)
    requires
        available.nan() || available.negative(),
        used.finite() && !used.negative(),
        least.finite() && !least.negative(),
        least.units() > 0,
    ensures
        available.difference(used).larger(least) == least,
{
    let rest: Single = available.difference(used);
    if !available.nan() && available.finite() {
        let exact: int = available.units() - used.units();
        if exact != 0 {
            crate::rounding::lemma_nearest_exists(crate::single::abs_int(exact), 1);
        }
    }
    crate::single::lemma_magnitude_iff(rest.pattern(), 0);
    crate::laws::numbers::law_larger(least, rest);
}

/// How large the available width is.
proof fn lemma_available(v: Single)
    requires
        v.bits <= 0x5F80_0000,
    ensures
        v.finite() && !v.negative(),
        0 <= v.units() <= pow2(213),
{
    lemma2_to64();
    crate::single::lemma_magnitude_of(0x80_0000, 190);
    lemma_pow2_adds(23, 190);
    crate::single::lemma_magnitude_monotone(v.pattern(), 0x5F80_0000);
}

/// The larger of two finite singles stands for the larger number.
proof fn lemma_larger_units(a: Single, b: Single)
    requires
        a.finite(),
        b.finite(),
    ensures
        a.larger(b).units() == if a.units() > b.units() {
            a.units()
        } else {
            b.units()
        },
{
    crate::laws::numbers::law_larger(a, b);
    crate::laws::numbers::law_larger(b, a);
    crate::single::lemma_magnitude_iff(a.pattern(), b.pattern());
}

/// A monitor whose size is not reported counts as 1920 by 1080; one that is counts with the
/// size reported, but as no less than 800 by 600.
pub proof fn law_monitor_size(width: i32, height: i32)
    ensures
        crate::layout::monitor_size(None) == (1920u32, 1080u32),
        ({
            let size: (u32, u32) = crate::layout::monitor_size(Some((width, height)));
            &&& size.0 >= 800 && size.0 >= width && (size.0 == 800 || size.0 == width)
            &&& size.1 >= 600 && size.1 >= height && (size.1 == 600 || size.1 == height)
        }),
{
}

/// A number, kept between two bounds.
pub open spec fn between(x: int, low: int, high: int) -> int {
    if x < low {
        low
    } else if x > high {
        high
    } else {
        x
    }
}

/// A single that was kept between two bounds stands for the number kept between them.
proof fn lemma_clamped(x: Single, low: Single, high: Single)
    requires
        x.finite() && !x.negative(),
        low.finite() && !low.negative(),
        high.finite() && !high.negative(),
        low.units() <= high.units(),
    ensures
        x.clamped(low, high).units() == between(x.units(), low.units(), high.units()),
        x.clamped(low, high).finite() && !x.clamped(low, high).negative(),
{
    crate::single::lemma_magnitude_iff(x.pattern(), low.pattern());
    crate::single::lemma_magnitude_iff(x.pattern(), high.pattern());
    crate::single::lemma_magnitude_iff(low.pattern(), high.pattern());
    crate::laws::numbers::law_larger(high, low);
    crate::laws::numbers::law_clamp_and_larger(x, low, high);
}

/// A share of a whole number: `t` in `2^k` of it.
#[verifier::rlimit(30)]
proof fn lemma_share(n: nat, share: Single, t: int, q: int, p: int)
    requires
        n <= 0xFFFF_FFFF,
        share.finite() && !share.negative(),
        share.units() == t * q,
        pow2(149) == p * q,
        q > 0,
        0 < t <= 0x100_0000,
        0x200_0000 <= p <= 0x1000_0000,
    ensures
        ({
            let a: Single = Single::of_whole(n);
            let r: Single = a.product(share);
            &&& r.finite() && !r.negative()
            &&& crate::laws::numbers::apart(p * r.units(), t * a.units()) * 0x100_0000 <= t
                * a.units() + 0x80_0000 * p
            &&& a.finite() && !a.negative()
            &&& 0 <= a.units() <= 2 * (n * pow2(149)) + 0x80_0000
            &&& crate::laws::numbers::apart(a.units(), (n * pow2(149)) as int) * 0x100_0000 <= n
                * pow2(149) + 0x80_0000
        }),
{
    let a: Single = Single::of_whole(n);
    let r: Single = a.product(share);
    let o: int = pow2(149) as int;
    let x: int = a.units();
    let y: int = r.units();
    crate::laws::numbers::law_whole(n);
    lemma_pow2_pos(149);
    lemma2_to64();
    lemma2_to64_rest();
    lemma_pow2_adds(32, 149);
    lemma_pow2_adds(33, 149);
    lemma_pow2_adds(34, 149);
    lemma_pow2_strictly_increases(60, 149);
    assert(n * pow2(149) <= 0xFFFF_FFFF * pow2(149)) by (nonlinear_arith)
        requires
            n <= 0xFFFF_FFFF,
    ;
    assert(0 <= x <= pow2(183));
    assert(share.units() <= o) by (nonlinear_arith)
        requires
            share.units() == t * q,
            o == p * q,
            t <= p,
            q > 0,
    ;
    crate::single::lemma_magnitude_of(0x80_0000, 254);
    lemma_pow2_adds(23, 254);
    lemma_pow2_strictly_increases(184, 277);
    assert(0 <= x * share.units() <= pow2(183) * o) by (nonlinear_arith)
        requires
            0 <= x <= pow2(183),
            0 <= share.units() <= o,
    ;
    lemma_pow2_strictly_increases(183, 277);
    assert(pow2(183) * o < pow2(277) * o) by (nonlinear_arith)
        requires
            pow2(183) < pow2(277),
            o > 0,
    ;
    crate::laws::numbers::law_product_close(a, share);
    crate::laws::numbers::law_product_nearest(a, share, Single::of(0));
    assert(x * (t * q) == (t * x) * q) by (nonlinear_arith);
    assert(y * (p * q) == (p * y) * q) by (nonlinear_arith);
    let d: int = crate::laws::numbers::apart(p * y, t * x);
    assert(crate::laws::numbers::apart((p * y) * q, (t * x) * q) == d * q) by (nonlinear_arith)
        requires
            d == crate::laws::numbers::apart(p * y, t * x),
            q > 0,
    ;
    assert(t * x >= 0) by (nonlinear_arith)
        requires
            t > 0,
            x >= 0,
    ;
    assert(d * 0x100_0000 <= t * x + 0x80_0000 * p) by (nonlinear_arith)
        requires
            (d * q) * 0x100_0000 <= (t * x) * q + 0x80_0000 * (p * q),
            q > 0,
    ;
    assert(t * x <= p * x) by (nonlinear_arith)
        requires
            t <= p,
            x >= 0,
    ;
    assert(y <= 2 * x + 0x80_0000) by (nonlinear_arith)
        requires
            p * y <= p * x + p * x + 0x80_0000 * p,
            p > 0,
    ;
    lemma_pow2_adds(40, 149);
    crate::laws::faces::lemma_not_infinite(r, y, 189);
}

/// The window is 26 percent as wide as the monitor, but no less than 400 points and no more
/// than 1000.
pub proof fn law_window_width(monitor_width: u32, monitor_height: u32)
    ensures
        ({
            let width: int = crate::layout::placement(
                monitor_width as nat,
                monitor_height as nat,
            ).width.units();
            let one: int = pow2(149) as int;
            crate::laws::numbers::apart(
                100 * width,
                between(26 * (monitor_width * one), 40000 * one, 100000 * one),
            ) * 8 <= one
        }),
{
    lemma_width(monitor_width);
}

/// How wide the window is.
#[verifier::rlimit(30)]
proof fn lemma_width(monitor_width: u32)
    ensures
        ({
            let width: Single = crate::layout::window_width(monitor_width as nat);
            let one: int = pow2(149) as int;
            &&& width.finite() && !width.negative()
            &&& 400 * one <= width.units() <= 1000 * one
            &&& crate::laws::numbers::apart(
                100 * width.units(),
                between(26 * (monitor_width * one), 40000 * one, 100000 * one),
            ) * 8 <= one
        }),
{
    let n: nat = monitor_width as nat;
    let o: int = pow2(149) as int;
    let share: Single = Single::of(0x3E85_1EB8);
    let q: int = pow2(124) as int;
    lemma2_to64();
    lemma_pow2_pos(124);
    lemma_pow2_pos(149);
    crate::single::lemma_magnitude_of(8724152, 124);
    lemma_pow2_adds(25, 124);
    lemma_share(n, share, 8724152, q, 0x200_0000);
    crate::layout::lemma_whole_exact(400, 15);
    crate::layout::lemma_whole_exact(1000, 14);
    let r: Single = Single::of_whole(n).product(share);
    lemma_clamped(r, Single::of_whole(400), Single::of_whole(1000));
    lemma_pow2_strictly_increases(60, 149);
    lemma2_to64_rest();
    let mo: int = monitor_width * o;
    assert(n * pow2(149) == mo);
    assert(mo >= 0) by (nonlinear_arith)
        requires
            mo == monitor_width * o,
            o > 0,
    ;
    assert(crate::laws::numbers::apart(100 * r.units(), 26 * mo) * 0x40_0000 <= 26 * mo + o);
}

/// The window is a fifth as high as it is wide.
pub proof fn law_window_height(monitor_width: u32, monitor_height: u32)
    ensures
        ({
            let p: Placement = crate::layout::placement(
                monitor_width as nat,
                monitor_height as nat,
            );
            crate::laws::numbers::apart(5 * p.height.units(), p.width.units()) * 0x1000 <= pow2(149)
        }),
{
    lemma_width(monitor_width);
    lemma_high(crate::layout::window_width(monitor_width as nat));
}

/// How high a window is.
proof fn lemma_high(width: Single)
    requires
        width.finite() && !width.negative(),
        400 * pow2(149) <= width.units() <= 1000 * pow2(149),
    ensures
        ({
            let height: Single = crate::layout::window_height(width);
            &&& height.finite() && !height.negative()
            &&& 80 * pow2(149) <= height.units() <= 200 * pow2(149)
            &&& crate::laws::numbers::apart(5 * height.units(), width.units()) * 0x1000 <= pow2(149)
        }),
{
    let o: int = pow2(149) as int;
    let five: Single = Single::of_whole(5);
    lemma2_to64();
    lemma_pow2_pos(149);
    crate::layout::lemma_whole_exact(5, 21);
    crate::layout::lemma_whole_exact(80, 17);
    crate::layout::lemma_whole_exact(200, 16);
    lemma_pow2_strictly_increases(60, 149);
    lemma2_to64_rest();
    lemma_pow2_adds(34, 149);
    lemma_divided(width, five, 5);
    lemma_clamped(width.quotient(five), Single::of_whole(80), Single::of_whole(200));
}

/// A single over a whole number.
proof fn lemma_divided(x: Single, b: Single, m: int)
    requires
        x.finite(),
        b.finite() && !b.negative(),
        b.units() == m * pow2(149),
        2 <= m <= 5,
        -pow2(183) <= x.units() <= pow2(183),
    ensures
        x.quotient(b).finite(),
        x.quotient(b).negative() == x.negative(),
        crate::laws::numbers::apart(m * x.quotient(b).units(), x.units()) * 0x100_0000
            <= crate::laws::numbers::apart(x.units(), 0) + 0x80_0000 * m,
{
    let o: int = pow2(149) as int;
    let v: int = x.units();
    lemma_pow2_pos(149);
    crate::single::lemma_magnitude_of(0x80_0000, 254);
    lemma2_to64();
    lemma_pow2_adds(23, 254);
    lemma_pow2_strictly_increases(183, 277);
    let size: int = crate::laws::numbers::apart(v, 0);
    assert(crate::laws::numbers::apart(v * o, 0) == size * o) by (nonlinear_arith)
        requires
            size == crate::laws::numbers::apart(v, 0),
            o > 0,
    ;
    assert(size * o < pow2(277) * (m * o)) by (nonlinear_arith)
        requires
            0 <= size < pow2(277),
            m >= 2,
            o > 0,
    ;
    assert(b.units() > 0) by (nonlinear_arith)
        requires
            b.units() == m * o,
            m >= 2,
            o > 0,
    ;
    crate::laws::numbers::law_quotient_close(x, b);
    crate::laws::numbers::law_quotient_nearest(x, b, Single::of(0));
    let y: int = x.quotient(b).units();
    assert(y * (m * o) == (m * y) * o) by (nonlinear_arith);
    let d: int = crate::laws::numbers::apart(m * y, v);
    assert(crate::laws::numbers::apart((m * y) * o, v * o) == d * o) by (nonlinear_arith)
        requires
            d == crate::laws::numbers::apart(m * y, v),
            o > 0,
    ;
    assert(d * 0x100_0000 <= size + 0x80_0000 * m) by (nonlinear_arith)
        requires
            (d * o) * 0x100_0000 <= size * o + 0x80_0000 * (m * o),
            o > 0,
    ;
    lemma_pow2_strictly_increases(60, 183);
    lemma2_to64_rest();
    lemma_pow2_unfold(184);
    assert(crate::laws::numbers::apart(m * y, 0) <= 2 * pow2(183));
    assert(-pow2(184) <= y <= pow2(184)) by (nonlinear_arith)
        requires
            -pow2(184) <= m * y <= pow2(184),
            m >= 2,
    ;
    lemma_pow2_strictly_increases(184, 276);
    crate::laws::faces::lemma_not_infinite(x.quotient(b), y, 184);
}

/// The window stands in the middle of the monitor's width.
#[verifier::rlimit(30)]
pub proof fn law_window_centred(monitor_width: u32, monitor_height: u32)
    ensures
        ({
            let p: Placement = crate::layout::placement(
                monitor_width as nat,
                monitor_height as nat,
            );
            let right: int = monitor_width * pow2(149);
            crate::laws::numbers::apart(p.x.units() + p.x.units() + p.width.units(), right)
                * 0x10_0000 <= right + 1000 * pow2(149)
        }),
{
    let o: int = pow2(149) as int;
    let width: Single = crate::layout::window_width(monitor_width as nat);
    let right: Single = Single::of_whole(monitor_width as nat);
    let left: Single = right.difference(width);
    lemma_width(monitor_width);
    lemma_whole_size(monitor_width);
    lemma2_to64();
    lemma2_to64_rest();
    lemma_pow2_adds(10, 149);
    lemma_pow2_adds(33, 149);
    lemma_pow2_strictly_increases(60, 149);
    lemma_pow2_strictly_increases(183, 277);
    lemma_pow2_unfold(183);
    lemma_pow2_strictly_increases(159, 182);
    crate::single::lemma_magnitude_of(0x80_0000, 254);
    lemma_pow2_adds(23, 254);
    crate::laws::numbers::law_difference_close(right, width);
    crate::laws::faces::lemma_not_infinite(left, left.units(), 183);
    crate::layout::lemma_whole_exact(2, 22);
    lemma_divided(left, Single::of_whole(2), 2);
}

/// How large a whole number is as a single.
proof fn lemma_whole_size(n: u32)
    ensures
        ({
            let a: Single = Single::of_whole(n as nat);
            &&& a.finite() && !a.negative()
            &&& 0 <= a.units() <= 0x1_8000_0000 * pow2(149)
            &&& 0 <= n * pow2(149) <= 0xFFFF_FFFF * pow2(149)
            &&& crate::laws::numbers::apart(a.units(), n * pow2(149)) * 0x100_0000 <= n * pow2(149)
                + 0x80_0000
        }),
{
    crate::laws::numbers::law_whole(n as nat);
    assert(0 <= n * pow2(149) <= 0xFFFF_FFFF * pow2(149)) by (nonlinear_arith)
        requires
            0 <= n <= 0xFFFF_FFFF,
    ;
    lemma_pow2_strictly_increases(60, 149);
    lemma2_to64_rest();
}

/// Below the window 4 percent of the monitor's height are left.
#[verifier::rlimit(30)]
pub proof fn law_window_near_bottom(monitor_width: u32, monitor_height: u32)
    ensures
        ({
            let p: Placement = crate::layout::placement(
                monitor_width as nat,
                monitor_height as nat,
            );
            let bottom: int = monitor_height * pow2(149);
            crate::laws::numbers::apart(100 * (p.y.units() + p.height.units()), 96 * bottom)
                * 0x1_0000 <= 96 * bottom + 1000 * pow2(149)
        }),
{
    let n: nat = monitor_height as nat;
    let o: int = pow2(149) as int;
    let q: int = pow2(121) as int;
    let width: Single = crate::layout::window_width(monitor_width as nat);
    let height: Single = crate::layout::window_height(width);
    let bottom: Single = Single::of_whole(n);
    let share: Single = Single::of(0x3D23_D70A);
    let margin: Single = bottom.product(share);
    let above: Single = bottom.difference(height);
    lemma_width(monitor_width);
    lemma_high(width);
    lemma_whole_size(monitor_height);
    lemma2_to64();
    lemma2_to64_rest();
    lemma_pow2_pos(121);
    lemma_pow2_pos(149);
    crate::single::lemma_magnitude_of(10737418, 121);
    lemma_pow2_adds(28, 121);
    lemma_share(n, share, 10737418, q, 0x1000_0000);
    lemma_pow2_adds(33, 149);
    lemma_pow2_adds(34, 149);
    lemma_pow2_strictly_increases(60, 149);
    lemma_pow2_strictly_increases(183, 277);
    crate::single::lemma_magnitude_of(0x80_0000, 254);
    lemma_pow2_adds(23, 254);
    crate::laws::numbers::law_difference_close(bottom, height);
    crate::laws::faces::lemma_not_infinite(above, above.units(), 183);
    crate::laws::numbers::law_difference_close(above, margin);
    lemma_bottom(
        bottom.units(),
        monitor_height * o,
        height.units(),
        margin.units(),
        above.units(),
        above.difference(margin).units(),
        o,
    );
}

/// What is left above the window, from the steps in which it is found.
proof fn lemma_bottom(b: int, exact: int, h: int, margin: int, above: int, y: int, one: int)
    requires
        one >= 0x1_0000_0000_0000,
        b >= 0,
        0 <= h <= 200 * one,
        0 <= exact,
        crate::laws::numbers::apart(b, exact) * 0x100_0000 <= exact + 0x80_0000,
        crate::laws::numbers::apart(0x1000_0000 * margin, 10737418 * b) * 0x100_0000 <= 10737418 * b
            + 0x80_0000 * 0x1000_0000,
        crate::laws::numbers::apart(above, b - h) * 0x100_0000 <= crate::laws::numbers::apart(b, h)
            + 0x80_0000,
        crate::laws::numbers::apart(y, above - margin) * 0x100_0000 <= crate::laws::numbers::apart(
            above,
            margin,
        ) + 0x80_0000,
    ensures
        crate::laws::numbers::apart(100 * (y + h), 96 * exact) * 0x1_0000 <= 96 * exact + 1000
            * one,
{
    assert(crate::laws::numbers::apart(b, h) <= b + h);
    assert(b <= exact + exact && 0 <= margin <= b + one);
    assert(crate::laws::numbers::apart(above, margin) <= 2 * b + 2 * h + 2 * one);
    assert(crate::laws::numbers::apart(100 * margin, 4 * b) * 0x10_0000 <= 4 * b + one);
    assert(crate::laws::numbers::apart(above, b - h) * 0x100_0000 <= b + h + one);
    assert(crate::laws::numbers::apart(y, above - margin) * 0x80_0000 <= b + h + 2 * one);
}

} // verus!

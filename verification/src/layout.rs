//! Sizes: where the window opens, and how the widgets share it.
//!
//! Every size of the widgets is proportional to their height; they look as drawn at a
//! height of 56 points. The window itself keeps to bounds.

use crate::single::Single;
use crate::single::HIDDEN;
use crate::single::INFINITY;
use crate::single::ONE;
use crate::single::ONE_HALF;
use vstd::arithmetic::power2::*;
use vstd::prelude::*;

verus! {

/// The height at which the widgets have the sizes that they were drawn with.
pub const BASE_HEIGHT: u32 = 56;

/// The pattern of 0.26, the share of the monitor's width that the window takes.
pub const WINDOW_SHARE: u32 = 0x3E85_1EB8;

/// The pattern of 0.04, the share of the monitor's height that is left below the window.
pub const MARGIN_SHARE: u32 = 0x3D23_D70A;

/// How much larger or smaller than drawn the widgets are.
pub open spec fn scale(h: Single) -> Single {
    h.quotient(Single::of_whole(BASE_HEIGHT as nat))
}

/// A size of `n` points, scaled.
pub open spec fn scaled(n: nat, h: Single) -> Single {
    Single::of_whole(n).product(scale(h))
}

/// How much larger or smaller than drawn the widgets are.
pub fn scale_of(h: Single) -> (r: Single)
    ensures
        r == scale(h),
{
    h.over(Single::from_whole(BASE_HEIGHT))
}

/// A size of `n` points, scaled.
pub fn size(n: u32, h: Single) -> (r: Single)
    ensures
        r == scaled(n as nat, h),
{
    Single::from_whole(n).times(scale_of(h))
}

// ---------------------------------------------------------------------------------------
// The window
// ---------------------------------------------------------------------------------------

/// A number, but at least `low`.
pub open spec fn at_least(x: i32, low: u32) -> u32 {
    if x >= low {
        x as u32
    } else {
        low
    }
}

/// The size that a monitor counts as, given what the system reports of it.
pub open spec fn monitor_size(reported: Option<(i32, i32)>) -> (u32, u32) {
    match reported {
        Some((width, height)) => (at_least(width, 800), at_least(height, 600)),
        None => (1920, 1080),
    }
}

/// The size of the primary monitor. Where the system reports one, it counts as at least
/// 800 by 600; where it reports none, the monitor is taken to be 1920 by 1080.
pub fn primary_monitor_size(reported: Option<(i32, i32)>) -> (size: (u32, u32))
    ensures
        size == match reported {
            Some((width, height)) => (at_least(width, 800), at_least(height, 600)),
            None => (1920u32, 1080u32),
        },
        size == monitor_size(reported),
{
    match reported {
        Some((width, height)) => {
            let w: u32 = if width > 800 {
                width as u32
            } else {
                800
            };
            let h: u32 = if height > 600 {
                height as u32
            } else {
                600
            };
            (w, h)
        },
        None => (1920, 1080),
    }
}

/// Where the window opens, and how large.
#[derive(Clone, Copy, PartialEq, Eq, Structural, Debug)]
pub struct Placement {
    pub width: Single,
    pub height: Single,
    pub x: Single,
    pub y: Single,
}

/// The width of the window: about a quarter of the monitor's.
pub open spec fn window_width(monitor: nat) -> Single {
    Single::of_whole(monitor).product(Single::of(WINDOW_SHARE)).clamped(
        Single::of_whole(400),
        Single::of_whole(1000),
    )
}

/// The height of the window: a fifth of its width.
pub open spec fn window_height(width: Single) -> Single {
    width.quotient(Single::of_whole(5)).clamped(Single::of_whole(80), Single::of_whole(200))
}

/// Where the window opens on a monitor: in the middle, near the bottom.
pub open spec fn placement(monitor_width: nat, monitor_height: nat) -> Placement {
    let width: Single = window_width(monitor_width);
    let height: Single = window_height(width);
    let bottom: Single = Single::of_whole(monitor_height);
    Placement {
        width,
        height,
        x: Single::of_whole(monitor_width).difference(width).quotient(Single::of_whole(2)),
        y: bottom.difference(height).difference(bottom.product(Single::of(MARGIN_SHARE))),
    }
}

/// Where the window opens on a monitor of the given size.
pub fn place_window(monitor_width: u32, monitor_height: u32) -> (r: Placement)
    ensures
        r == placement(monitor_width as nat, monitor_height as nat),
{
    let right: Single = Single::from_whole(monitor_width);
    let bottom: Single = Single::from_whole(monitor_height);
    let width: Single = right.times(Single { bits: WINDOW_SHARE }).clamp(
        Single::from_whole(400),
        Single::from_whole(1000),
    );
    let height: Single = width.over(Single::from_whole(5)).clamp(
        Single::from_whole(80),
        Single::from_whole(200),
    );
    let x: Single = right.minus(width).over(Single::from_whole(2));
    let y: Single = bottom.minus(height).minus(bottom.times(Single { bits: MARGIN_SHARE }));
    Placement { width, height, x, y }
}

/// The height of a window whose widgets have the base height: they and the margins above
/// and below them.
pub const BASE_WINDOW: u32 = 80;

/// The panel behind the widgets.
#[derive(Clone, Copy, PartialEq, Eq, Structural, Debug)]
pub struct Panel {
    /// How round its corners are.
    pub corner: Single,
    /// How far it stays away from the edges of the window.
    pub outer: Single,
    /// How far the widgets stay away from its left and right.
    pub side: Single,
    /// How far the widgets stay away from its top and bottom.
    pub top: Single,
}

/// A size of `n` points in a window of the given height, scaled as the widgets are.
pub open spec fn scaled_in(n: nat, window: Single) -> Single {
    Single::of_whole(n).product(window.quotient(Single::of_whole(BASE_WINDOW as nat)))
}

/// The panel in a window of the given height.
pub open spec fn panel(window: Single) -> Panel {
    Panel {
        corner: scaled_in(14, window),
        outer: scaled_in(4, window),
        side: scaled_in(14, window),
        top: scaled_in(8, window),
    }
}

/// The panel in a window of the given height.
pub fn lay_panel(window: Single) -> (r: Panel)
    ensures
        r == panel(window),
{
    let unit: Single = window.over(Single::from_whole(BASE_WINDOW));
    let round: Single = Single::from_whole(14).times(unit);
    Panel {
        corner: round,
        outer: Single::from_whole(4).times(unit),
        side: round,
        top: Single::from_whole(8).times(unit),
    }
}

// ---------------------------------------------------------------------------------------
// The row of widgets
// ---------------------------------------------------------------------------------------

/// The widths in the row of widgets.
#[derive(Clone, Copy, PartialEq, Eq, Structural, Debug)]
pub struct Layout {
    pub gap: Single,
    pub graph: Single,
    pub gear: Single,
    pub speed: Single,
    pub wheel: Single,
}

/// A width with another one added, if that one is shown.
pub open spec fn added(width: Single, more: Single, shown: bool) -> Single {
    if shown {
        width.sum(more)
    } else {
        width
    }
}

/// One if shown, else zero.
pub open spec fn one_if(shown: bool) -> nat {
    if shown {
        1
    } else {
        0
    }
}

/// The widths in a row of `available` points. The graph takes what the others and the
/// gaps between them leave, but no less than 60 points, scaled.
pub open spec fn row(
    h: Single,
    available: Single,
    gear: bool,
    speed: bool,
    wheel: bool,
) -> Layout {
    let gap: Single = scaled(12, h);
    let gear_width: Single = scaled(48, h);
    let speed_width: Single = scaled(74, h);
    let widgets: Single = added(
        added(added(Single::of(0), gear_width, gear), speed_width, speed),
        h,
        wheel,
    );
    let gaps: Single = gap.product(
        Single::of_whole(one_if(gear) + one_if(speed) + one_if(wheel)),
    ).sum(scaled(3, h));
    Layout {
        gap,
        graph: available.difference(widgets.sum(gaps)).larger(scaled(60, h)),
        gear: gear_width,
        speed: speed_width,
        wheel: h,
    }
}

/// A width with another one added, if that one is shown.
fn add_if(width: Single, more: Single, shown: bool) -> (r: Single)
    ensures
        r == added(width, more, shown),
{
    if shown {
        width.plus(more)
    } else {
        width
    }
}

/// One if shown, else zero.
fn count(shown: bool) -> (r: u32)
    ensures
        r == one_if(shown),
        r <= 1,
{
    if shown {
        1
    } else {
        0
    }
}

/// The widths in a row of `available` points.
pub fn lay_out(h: Single, available: Single, gear: bool, speed: bool, wheel: bool) -> (r: Layout)
    ensures
        r == row(h, available, gear, speed, wheel),
{
    let gap: Single = size(12, h);
    let gear_width: Single = size(48, h);
    let speed_width: Single = size(74, h);
    let zero: Single = Single { bits: 0 };
    let widgets: Single = add_if(
        add_if(add_if(zero, gear_width, gear), speed_width, speed),
        h,
        wheel,
    );
    let extra_gaps: u32 = count(gear) + count(speed) + count(wheel);
    let gaps: Single = gap.times(Single::from_whole(extra_gaps)).plus(size(3, h));
    let graph: Single = available.minus(widgets.plus(gaps)).max(size(60, h));
    Layout { gap, graph, gear: gear_width, speed: speed_width, wheel: h }
}

// ---------------------------------------------------------------------------------------
// Laws
// ---------------------------------------------------------------------------------------

/// A single that is not below zero, and no NaN.
pub open spec fn is_size(x: Single) -> bool {
    x.bits <= INFINITY
}

/// A whole number is a size, and finite below 2^32.
proof fn lemma_whole(n: nat)
    ensures
        is_size(Single::of_whole(n)),
        n <= 0x1_0000_0000 ==> Single::of_whole(n).finite(),
{
    let one: nat = crate::single::units_in_one();
    crate::rounding::lemma_nearest_exists(n * one, 1);
    if n <= 0x1_0000_0000 {
        let top: nat = (158 * HIDDEN + HIDDEN) as nat;
        lemma2_to64();
        lemma_pow2_adds(32, 149);
        lemma_pow2_adds(23, 158);
        crate::single::lemma_magnitude_of(HIDDEN as nat, 158);
        crate::rounding::lemma_nearest_exact(top, 1);
        assert(n * one <= 0x1_0000_0000 * one) by (nonlinear_arith)
            requires
                n <= 0x1_0000_0000,
        ;
        crate::rounding::lemma_nearest_monotone(n * one, 0x1_0000_0000 * one, 1);
        assert(crate::single::magnitude(top) * 1 == 0x1_0000_0000 * one);
    }
}

/// A whole number that fits a significand is held exactly.
pub proof fn lemma_whole_exact(n: nat, k: nat)
    requires
        k <= 23,
        HIDDEN <= n * pow2(k) <= 2 * HIDDEN,
    ensures
        Single::of_whole(n).units() == n * crate::single::units_in_one(),
        Single::of_whole(n).finite(),
        is_size(Single::of_whole(n)),
        Single::of_whole(n).pattern() > 0,
{
    let t: nat = n * pow2(k);
    let e: nat = (149 - k) as nat;
    let p: nat = e * (HIDDEN as nat) + t;
    crate::single::lemma_magnitude_of(t, e);
    lemma_pow2_adds(k, e);
    assert(t * pow2(e) == n * pow2(149)) by (nonlinear_arith)
        requires
            t == n * pow2(k),
            pow2(149) == pow2(k) * pow2(e),
    ;
    assert(p <= 151 * HIDDEN) by (nonlinear_arith)
        requires
            p == e * (HIDDEN as nat) + t,
            e <= 149,
            t <= 2 * HIDDEN,
    ;
    crate::rounding::lemma_nearest_exact(p, 1);
}

/// Larger whole numbers are not smaller as singles.
proof fn lemma_whole_monotone(m: nat, n: nat)
    requires
        m <= n,
    ensures
        Single::of_whole(m).units() <= Single::of_whole(n).units(),
{
    let one: nat = crate::single::units_in_one();
    assert(m * one <= n * one) by (nonlinear_arith)
        requires
            m <= n,
    ;
    crate::rounding::lemma_nearest_monotone(m * one, n * one, 1);
    crate::single::lemma_magnitude_monotone(
        crate::single::nearest(m * one, 1),
        crate::single::nearest(n * one, 1),
    );
}

/// A share of a size is no larger than the size.
proof fn lemma_share(a: Single, c: Single)
    requires
        is_size(a),
        a.finite(),
        c.bits <= ONE,
    ensures
        is_size(a.product(c)),
        a.product(c).units() <= a.units(),
{
    let ma: nat = crate::single::magnitude(a.pattern());
    let mc: nat = crate::single::magnitude(c.pattern());
    let one: nat = crate::single::units_in_one();
    crate::arithmetic::lemma_one();
    crate::single::lemma_magnitude_monotone(c.pattern(), ONE as nat);
    assert(ma * mc <= ma * one) by (nonlinear_arith)
        requires
            mc <= one,
    ;
    crate::rounding::lemma_nearest_exact(a.pattern(), one);
    crate::rounding::lemma_nearest_monotone(ma * mc, ma * one, one);
    crate::single::lemma_magnitude_monotone(a.product(c).pattern(), a.pattern());
}

/// The difference of a size and a smaller one is a size.
proof fn lemma_size_difference(a: Single, b: Single)
    requires
        is_size(a),
        is_size(b),
        a.finite(),
        b.finite(),
        b.units() <= a.units(),
    ensures
        is_size(a.difference(b)),
{
    crate::rounding::lemma_nearest_exists(crate::single::abs_int(a.units() - b.units()), 1);
}

/// A size clamped between two others lies between them, and has not grown unless it was
/// below the lower one.
proof fn lemma_clamped_size(x: Single, low: Single, high: Single)
    requires
        is_size(x),
        is_size(low),
        is_size(high),
        high.finite(),
        low.units() <= high.units(),
    ensures
        is_size(x.clamped(low, high)),
        x.clamped(low, high).finite(),
        low.units() <= x.clamped(low, high).units() <= high.units(),
        low.units() <= x.units() ==> x.clamped(low, high).units() <= x.units(),
{
    crate::single::lemma_magnitude_iff(x.pattern(), high.pattern());
    crate::single::lemma_magnitude_iff(low.pattern(), high.pattern());
}

/// The width of the window: between 400 and 1000 points, and no wider than the monitor.
proof fn lemma_window_width(monitor_width: u32)
    requires
        monitor_width >= 800,
    ensures
        ({
            let a: Single = Single::of_whole(monitor_width as nat);
            let w: Single = a.product(Single::of(WINDOW_SHARE)).clamped(
                Single::of_whole(400),
                Single::of_whole(1000),
            );
            &&& is_size(a)
            &&& a.finite()
            &&& is_size(w)
            &&& w.finite()
            &&& 400 * crate::single::units_in_one() <= w.units() <= 1000
                * crate::single::units_in_one()
            &&& w.units() <= a.units()
        }),
{
    let a: Single = Single::of_whole(monitor_width as nat);
    lemma2_to64();
    lemma_whole_exact(400, 15);
    lemma_whole_exact(1000, 14);
    lemma_whole_exact(800, 14);
    lemma_whole(monitor_width as nat);
    lemma_whole_monotone(800, monitor_width as nat);
    lemma_share(a, Single::of(WINDOW_SHARE));
    lemma_clamped_size(
        a.product(Single::of(WINDOW_SHARE)),
        Single::of_whole(400),
        Single::of_whole(1000),
    );
}

/// The height of the window: between 80 and 200 points.
proof fn lemma_window_height(width: Single)
    requires
        is_size(width),
        width.finite(),
    ensures
        ({
            let h: Single = width.quotient(Single::of_whole(5)).clamped(
                Single::of_whole(80),
                Single::of_whole(200),
            );
            &&& is_size(h)
            &&& h.finite()
            &&& 80 * crate::single::units_in_one() <= h.units() <= 200
                * crate::single::units_in_one()
        }),
{
    lemma2_to64();
    lemma_whole_exact(80, 17);
    lemma_whole_exact(200, 16);
    lemma_whole_exact(5, 21);
    lemma_quotient_size(width, Single::of_whole(5));
    lemma_clamped_size(
        width.quotient(Single::of_whole(5)),
        Single::of_whole(80),
        Single::of_whole(200),
    );
}

/// The window fits onto the monitor: it is between 400 and 1000 points wide and between 80
/// and 200 high, not wider than the monitor, and neither its left nor its upper edge is
/// outside.
#[verifier::spinoff_prover]
pub proof fn law_window_on_screen(monitor_width: u32, monitor_height: u32)
    requires
        monitor_width >= 800,
        monitor_height >= 600,
    ensures
        ({
            let p: Placement = placement(monitor_width as nat, monitor_height as nat);
            &&& p.width.reaches(Single::of_whole(400))
            &&& Single::of_whole(1000).reaches(p.width)
            &&& p.height.reaches(Single::of_whole(80))
            &&& Single::of_whole(200).reaches(p.height)
            &&& Single::of_whole(monitor_width as nat).reaches(p.width)
            &&& p.x.reaches(Single::of(0))
            &&& p.y.reaches(Single::of(0))
        }),
{
    let p: Placement = placement(monitor_width as nat, monitor_height as nat);
    lemma_window_width(monitor_width);
    lemma_window_height(p.width);
    lemma_left_edge(monitor_width, p.width);
    lemma_top_edge(monitor_height, p.height);
    lemma_limits();
    lemma_whole(monitor_width as nat);
    lemma_reaches(p.width, Single::of_whole(400));
    lemma_reaches(Single::of_whole(1000), p.width);
    lemma_reaches(p.height, Single::of_whole(80));
    lemma_reaches(Single::of_whole(200), p.height);
    lemma_reaches(Single::of_whole(monitor_width as nat), p.width);
    lemma_reaches(p.x, Single::of(0));
    lemma_reaches(p.y, Single::of(0));
}

/// Of two sizes the one with more units reaches the other.
proof fn lemma_reaches(a: Single, b: Single)
    requires
        is_size(a),
        is_size(b),
        b.units() <= a.units() || b.bits == 0,
    ensures
        a.reaches(b),
{
}

/// The bounds of the window, as singles.
proof fn lemma_limits()
    ensures
        is_size(Single::of_whole(400)) && Single::of_whole(400).units() == 400
            * crate::single::units_in_one(),
        is_size(Single::of_whole(1000)) && Single::of_whole(1000).units() == 1000
            * crate::single::units_in_one(),
        is_size(Single::of_whole(80)) && Single::of_whole(80).units() == 80
            * crate::single::units_in_one(),
        is_size(Single::of_whole(200)) && Single::of_whole(200).units() == 200
            * crate::single::units_in_one(),
{
    lemma2_to64();
    lemma_whole_exact(400, 15);
    lemma_whole_exact(1000, 14);
    lemma_whole_exact(80, 17);
    lemma_whole_exact(200, 16);
}

/// The left edge of the window is on the monitor.
proof fn lemma_left_edge(monitor_width: u32, width: Single)
    requires
        is_size(width),
        width.finite(),
        width.units() <= Single::of_whole(monitor_width as nat).units(),
    ensures
        is_size(
            Single::of_whole(monitor_width as nat).difference(width).quotient(Single::of_whole(2)),
        ),
{
    let a: Single = Single::of_whole(monitor_width as nat);
    lemma2_to64();
    lemma_whole_exact(2, 22);
    lemma_whole(monitor_width as nat);
    lemma_size_difference(a, width);
    lemma_quotient_size(a.difference(width), Single::of_whole(2));
}

/// The upper edge of the window is on the monitor.
proof fn lemma_top_edge(monitor_height: u32, height: Single)
    requires
        monitor_height >= 600,
        is_size(height),
        height.finite(),
        height.units() <= 200 * crate::single::units_in_one(),
    ensures
        ({
            let b: Single = Single::of_whole(monitor_height as nat);
            is_size(b.difference(height).difference(b.product(Single::of(MARGIN_SHARE))))
        }),
{
    lemma2_to64();
    lemma_pow2_pos(149);
    lemma_whole_exact(600, 14);
    lemma_whole(monitor_height as nat);
    lemma_whole_monotone(600, monitor_height as nat);
    lemma_upper_edge(Single::of_whole(monitor_height as nat), height);
}

/// A size over a positive number is a size.
proof fn lemma_quotient_size(a: Single, b: Single)
    requires
        is_size(a),
        is_size(b),
        b.finite(),
        b.pattern() > 0,
    ensures
        is_size(a.quotient(b)),
{
    crate::single::lemma_magnitude_iff(b.pattern(), 0);
    crate::rounding::lemma_nearest_exists(
        crate::single::magnitude(a.pattern()) * crate::single::units_in_one(),
        crate::single::magnitude(b.pattern()),
    );
}

/// Below a window of at most a third of the monitor's height there is room for the margin.
proof fn lemma_upper_edge(b: Single, h: Single)
    requires
        is_size(b),
        is_size(h),
        b.finite(),
        h.finite(),
        0 < b.units(),
        3 * h.units() <= b.units(),
    ensures
        is_size(b.difference(h).difference(b.product(Single::of(MARGIN_SHARE)))),
{
    let one: nat = crate::single::units_in_one();
    let margin: Single = b.product(Single::of(MARGIN_SHARE));
    let rest: Single = b.difference(h);
    let mb: nat = crate::single::magnitude(b.pattern());
    let mc: nat = crate::single::magnitude(MARGIN_SHARE as nat);
    let free: nat = (b.units() - h.units()) as nat;
    crate::arithmetic::lemma_one();
    crate::single::lemma_magnitude_double(ONE_HALF as nat);
    crate::single::lemma_magnitude_monotone(MARGIN_SHARE as nat, ONE_HALF as nat);
    assert(2 * mc <= one);
    lemma_share(b, Single::of(MARGIN_SHARE));
    assert(2 * (mb * mc) <= mb * one) by (nonlinear_arith)
        requires
            2 * mc <= one,
    ;
    assert(mb * one <= 2 * (free * one)) by (nonlinear_arith)
        requires
            mb <= 2 * free,
    ;
    crate::rounding::lemma_nearest_reduced(free, 1, one);
    crate::rounding::lemma_nearest_monotone(mb * mc, free * one, one);
    crate::rounding::lemma_nearest_exact(b.pattern(), 1);
    crate::rounding::lemma_nearest_monotone(free, mb, 1);
    crate::single::lemma_magnitude_monotone(margin.pattern(), rest.pattern());
    lemma_size_difference(b, h);
    lemma_size_difference(rest, margin);
}

/// Taller widgets are larger in every size: a size grows with the height.
pub proof fn law_sizes_grow(n: u32, h: Single, taller: Single)
    requires
        h.bits <= taller.bits < INFINITY,
    ensures
        scaled(n as nat, taller).reaches(scaled(n as nat, h)),
{
    let one: nat = crate::single::units_in_one();
    let base: Single = Single::of_whole(BASE_HEIGHT as nat);
    let m: nat = crate::single::magnitude(h.pattern());
    let mt: nat = crate::single::magnitude(taller.pattern());
    lemma2_to64();
    lemma_whole_exact(56, 18);
    lemma_whole(n as nat);
    crate::arithmetic::lemma_one();
    crate::single::lemma_magnitude_monotone(h.pattern(), taller.pattern());
    crate::single::lemma_magnitude_iff(base.pattern(), 0);
    let mb: nat = crate::single::magnitude(base.pattern());
    assert(m * one <= mt * one) by (nonlinear_arith)
        requires
            m <= mt,
    ;
    crate::rounding::lemma_nearest_monotone(m * one, mt * one, mb);
    // The scale is no larger than the height itself, and so finite.
    assert(mt * one <= mt * mb) by (nonlinear_arith)
        requires
            one <= mb,
    ;
    crate::rounding::lemma_nearest_exact(taller.pattern(), mb);
    crate::rounding::lemma_nearest_monotone(mt * one, mt * mb, mb);
    let s: nat = crate::single::magnitude(scale(h).pattern());
    let st: nat = crate::single::magnitude(scale(taller).pattern());
    crate::single::lemma_magnitude_monotone(scale(h).pattern(), scale(taller).pattern());
    let mn: nat = crate::single::magnitude(Single::of_whole(n as nat).pattern());
    assert(mn * s <= mn * st) by (nonlinear_arith)
        requires
            s <= st,
    ;
    crate::rounding::lemma_nearest_monotone(mn * s, mn * st, one);
    crate::single::lemma_magnitude_monotone(
        scaled(n as nat, h).pattern(),
        scaled(n as nat, taller).pattern(),
    );
}

/// Some powers of two, as singles.
proof fn lemma_powers()
    ensures
        crate::single::magnitude(0x3C80_0000) == pow2(143),
        crate::single::magnitude(ONE_HALF as nat) == pow2(148),
        crate::single::magnitude(0x4F80_0000) == pow2(181),
        crate::single::magnitude(0x5F80_0000) == pow2(213),
        crate::single::magnitude(0x6F80_0000) == pow2(245),
        crate::single::magnitude(HIDDEN as nat) == pow2(23),
        pow2(181) * pow2(213) == pow2(245) * pow2(149),
        pow2(23) * pow2(149) <= pow2(148) * pow2(143),
        pow2(143) * 64 == pow2(149),
        pow2(29) * pow2(149) <= pow2(149) * pow2(149),
        pow2(29) == 64 * pow2(23),
{
    lemma2_to64();
    crate::single::lemma_magnitude_of(HIDDEN as nat, 120);
    crate::single::lemma_magnitude_of(HIDDEN as nat, 125);
    crate::single::lemma_magnitude_of(HIDDEN as nat, 158);
    crate::single::lemma_magnitude_of(HIDDEN as nat, 190);
    crate::single::lemma_magnitude_of(HIDDEN as nat, 222);
    crate::single::lemma_magnitude_of(HIDDEN as nat, 0);
    lemma_pow2_adds(23, 120);
    lemma_pow2_adds(23, 125);
    lemma_pow2_adds(23, 158);
    lemma_pow2_adds(23, 190);
    lemma_pow2_adds(23, 222);
    lemma_pow2_adds(181, 213);
    lemma_pow2_adds(245, 149);
    lemma_pow2_adds(23, 149);
    lemma_pow2_adds(148, 143);
    lemma_pow2_strictly_increases(172, 291);
    lemma_pow2_adds(6, 143);
    lemma_pow2_adds(29, 149);
    lemma_pow2_adds(149, 149);
    lemma_pow2_strictly_increases(178, 298);
}

/// The scale of widgets between one point and 2^64 points in height: it is neither small
/// nor large, and that of a height twice as large is twice the scale.
proof fn lemma_scale_doubles(h: Single)
    requires
        ONE <= h.bits <= 0x5F80_0000,
    ensures
        0x3C80_0000 <= scale(h).bits <= 0x5F80_0000,
        scale(Single::of((h.bits + HIDDEN) as u32)).bits == scale(h).bits + HIDDEN,
{
    let one: nat = crate::single::units_in_one();
    let base: Single = Single::of_whole(BASE_HEIGHT as nat);
    let m: nat = crate::single::magnitude(h.pattern());
    lemma2_to64();
    lemma_whole_exact(56, 18);
    crate::arithmetic::lemma_one();
    lemma_powers();
    let b: nat = crate::single::magnitude(base.pattern());
    assert(b == 56 * one);
    crate::single::lemma_magnitude_monotone(ONE as nat, h.pattern());
    crate::single::lemma_magnitude_double(h.pattern());
    // At least 1/64.
    assert(pow2(143) * b <= m * one) by (nonlinear_arith)
        requires
            b == 56 * one,
            pow2(143) * 64 == one,
            m >= one,
    ;
    crate::rounding::lemma_nearest_exact(0x3C80_0000, b);
    crate::rounding::lemma_nearest_monotone(pow2(143) * b, m * one, b);
    // At most the height itself.
    assert(m * one <= m * b) by (nonlinear_arith)
        requires
            one <= b,
    ;
    crate::rounding::lemma_nearest_exact(h.pattern(), b);
    crate::rounding::lemma_nearest_monotone(m * one, m * b, b);
    assert(pow2(23) * b <= m * one) by (nonlinear_arith)
        requires
            b == 56 * one,
            pow2(29) == 64 * pow2(23),
            pow2(29) * one <= one * one,
            m >= one,
    ;
    crate::rounding::lemma_nearest_twice(m * one, b);
    assert((2 * m) * one == 2 * (m * one)) by (nonlinear_arith);
}

/// Widgets that are twice as tall are twice as large in every size, whatever the size is
/// at the base height: from half a point up to 2^32 points, at heights from one point up
/// to 2^64 points.
pub proof fn law_sizes_double(drawn: Single, h: Single)
    requires
        ONE_HALF <= drawn.bits <= 0x4F80_0000,
        ONE <= h.bits <= 0x5F80_0000,
    ensures
        Single::of((h.bits + HIDDEN) as u32).units() == 2 * h.units(),
        drawn.product(scale(Single::of((h.bits + HIDDEN) as u32))).units() == 2 * drawn.product(
            scale(h),
        ).units(),
{
    let one: nat = crate::single::units_in_one();
    let c: nat = crate::single::magnitude(drawn.pattern());
    let s: nat = crate::single::magnitude(scale(h).pattern());
    lemma_scale_doubles(h);
    lemma_powers();
    lemma_pow2_pos(149);
    crate::single::lemma_magnitude_double(h.pattern());
    crate::single::lemma_magnitude_double(scale(h).pattern());
    crate::single::lemma_magnitude_monotone(ONE_HALF as nat, drawn.pattern());
    crate::single::lemma_magnitude_monotone(drawn.pattern(), 0x4F80_0000);
    crate::single::lemma_magnitude_monotone(0x3C80_0000, scale(h).pattern());
    crate::single::lemma_magnitude_monotone(scale(h).pattern(), 0x5F80_0000);
    assert(pow2(23) * one <= c * s) by (nonlinear_arith)
        requires
            c >= pow2(148),
            s >= pow2(143),
            pow2(23) * one <= pow2(148) * pow2(143),
    ;
    assert(c * s <= pow2(245) * one) by (nonlinear_arith)
        requires
            c <= pow2(181),
            s <= pow2(213),
            pow2(181) * pow2(213) == pow2(245) * one,
    ;
    crate::rounding::lemma_nearest_exact(0x6F80_0000, one);
    crate::rounding::lemma_nearest_monotone(c * s, pow2(245) * one, one);
    crate::rounding::lemma_nearest_twice(c * s, one);
    assert(c * (2 * s) == 2 * (c * s)) by (nonlinear_arith);
}

/// In a window of the base height the panel is as drawn, and leaves the base height to the
/// widgets.
pub proof fn law_base_panel()
    ensures
        panel(Single::of_whole(BASE_WINDOW as nat)) == (Panel {
            corner: Single::of_whole(14),
            outer: Single::of_whole(4),
            side: Single::of_whole(14),
            top: Single::of_whole(8),
        }),
        BASE_WINDOW == BASE_HEIGHT + 2 * (4 + 8),
{
    let one: nat = crate::single::units_in_one();
    let base: Single = Single::of_whole(BASE_WINDOW as nat);
    lemma2_to64();
    lemma_whole_exact(80, 17);
    lemma_whole(14);
    lemma_whole(4);
    lemma_whole(8);
    crate::arithmetic::lemma_one();
    crate::single::lemma_magnitude_iff(base.pattern(), 0);
    let b: nat = crate::single::magnitude(base.pattern());
    crate::rounding::lemma_nearest_exact(ONE as nat, b);
    assert(b * one == one * b) by (nonlinear_arith);
    assert(base.quotient(base) == Single::of(ONE));
    crate::rounding::lemma_nearest_exact(Single::of_whole(14).pattern(), one);
    crate::rounding::lemma_nearest_exact(Single::of_whole(4).pattern(), one);
    crate::rounding::lemma_nearest_exact(Single::of_whole(8).pattern(), one);
}

/// At the base height every size is as drawn.
pub proof fn law_base_size(n: nat)
    requires
        n <= 0x1_0000_0000,
    ensures
        scaled(n, Single::of_whole(BASE_HEIGHT as nat)) == Single::of_whole(n),
{
    let one: nat = crate::single::units_in_one();
    let base: Single = Single::of_whole(BASE_HEIGHT as nat);
    let whole: Single = Single::of_whole(n);
    lemma2_to64();
    lemma_whole_exact(56, 18);
    lemma_whole(n);
    crate::arithmetic::lemma_one();
    crate::single::lemma_magnitude_iff(base.pattern(), 0);
    let mb: nat = crate::single::magnitude(base.pattern());
    crate::rounding::lemma_nearest_exact(ONE as nat, mb);
    assert(mb * one == one * mb) by (nonlinear_arith);
    assert(scale(base) == Single::of(ONE));
    crate::rounding::lemma_nearest_exact(whole.pattern(), one);
}

/// The graph is never narrower than 60 points, scaled.
pub proof fn law_graph_width(
    h: Single,
    available: Single,
    gear: bool,
    speed: bool,
    wheel: bool,
)
    requires
        !scaled(60, h).nan(),
    ensures
        row(h, available, gear, speed, wheel).graph.reaches(scaled(60, h)),
{
}

} // verus!

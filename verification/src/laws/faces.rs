//! What the widgets show.

use crate::color::Palette;
use crate::color::Rgba;
use crate::frame::WidgetView;
use crate::layout::Layout;
use crate::overlay::Overlay;
use crate::overlay::Sample;
use crate::single::Single;
use crate::widgets::GearView;
use crate::widgets::GraphView;
use crate::widgets::GripSize;
use crate::widgets::LineView;
use crate::widgets::SegmentView;
use crate::widgets::SpeedView;
use crate::widgets::Trace;
use crate::widgets::WheelFace;
use vstd::arithmetic::power2::*;
use vstd::prelude::*;

verus! {

/// The colour is opaque and has the three channels.
pub open spec fn is_rgb(color: Rgba, r: int, g: int, b: int) -> bool {
    color.r == r && color.g == g && color.b == b && color.a == 255
}

/// One for a widget that is shown, else zero.
pub open spec fn place(shown: bool) -> int {
    if shown {
        1
    } else {
        0
    }
}

/// The widgets that are shown stand in the order graph, gear, speed, wheel, each once, and
/// no other does. Their widths are those of the row.
#[verifier::rlimit(30)]
pub proof fn law_widget_order(s: Overlay, h: Single, available: Single, colors: Palette)
    ensures
        ({
            let widgets: Seq<WidgetView> = s.widgets(h, available, colors);
            let row: Layout = crate::layout::row(
                h,
                available,
                s.show_gear,
                s.show_speed,
                s.show_wheel,
            );
            let gear: int = place(s.show_graph);
            let speed: int = gear + place(s.show_gear);
            let wheel: int = speed + place(s.show_speed);
            &&& widgets.len() == wheel + place(s.show_wheel)
            &&& s.show_graph ==> (widgets[0] matches WidgetView::Graph { width, graph } && width
                == row.graph)
            &&& s.show_gear ==> (widgets[gear] matches WidgetView::Gear { width, gear } && width
                == row.gear)
            &&& s.show_speed ==> (widgets[speed] matches WidgetView::Speed { width, speed } && width
                == row.speed)
            &&& s.show_wheel ==> (widgets[wheel] matches WidgetView::Wheel { width, wheel } && width
                == row.wheel)
        }),
{
}

/// Each widget is drawn for the height of the row, in the given colours, of the overlay's
/// own fields: the graph of the history, the gear of the gear and the engine's share, the
/// speed of the speed, and the wheel of the steering.
#[verifier::rlimit(30)]
pub proof fn law_widget_faces(s: Overlay, h: Single, available: Single, colors: Palette)
    ensures
        ({
            let widgets: Seq<WidgetView> = s.widgets(h, available, colors);
            let second: int = place(s.show_graph);
            let third: int = second + place(s.show_gear);
            let fourth: int = third + place(s.show_speed);
            &&& s.show_graph ==> (widgets[0] matches WidgetView::Graph { width, graph } && graph
                == crate::widgets::graph_face(s.history, h, colors))
            &&& s.show_gear ==> (widgets[second] matches WidgetView::Gear { width, gear } && gear
                == crate::widgets::gear_face(s.gear, s.rpm_pct, h, colors))
            &&& s.show_speed ==> (widgets[third] matches WidgetView::Speed { width, speed } && speed
                == crate::widgets::speed_face(s.speed_kmh, h))
            &&& s.show_wheel ==> (widgets[fourth] matches WidgetView::Wheel { width, wheel } && wheel
                == crate::widgets::wheel_face(s.steering, h))
        }),
{
}

/// The gear widget shows the gear: `N` without a game and in neutral, `R` in reverse, else
/// the digits of its number.
#[verifier::rlimit(30)]
pub proof fn law_gear_widget(s: Overlay, h: Single, available: Single, colors: Palette)
    requires
        s.show_gear,
    ensures
        s.widgets(h, available, colors)[place(s.show_graph)] matches WidgetView::Gear {
            width,
            gear,
        } && {
            &&& s.gear is None ==> gear.text == seq!['N']
            &&& (s.gear matches Some(g) && g == 0) ==> gear.text == seq!['N']
            &&& (s.gear matches Some(g) && g < 0) ==> gear.text == seq!['R']
            &&& s.gear matches Some(g) ==> g > 0 ==> {
                &&& crate::laws::words::all_digits(gear.text)
                &&& crate::laws::words::number_in(gear.text) == g
                &&& gear.text.len() > 0 && gear.text[0] != '0'
            }
        },
{
    law_gear_text(s.gear);
}

/// How a gear is written.
pub proof fn law_gear_text(gear: Option<i8>)
    ensures
        ({
            let text: Seq<char> = crate::widgets::gear_text(gear);
            &&& gear is None ==> text == seq!['N']
            &&& (gear matches Some(g) && g == 0) ==> text == seq!['N']
            &&& (gear matches Some(g) && g < 0) ==> text == seq!['R']
            &&& gear matches Some(g) ==> g > 0 ==> {
                &&& crate::laws::words::all_digits(text)
                &&& crate::laws::words::number_in(text) == g
                &&& text.len() > 0 && text[0] != '0'
            }
        }),
{
    reveal_strlit("R");
    reveal_strlit("N");
    assert("R"@ =~= seq!['R']);
    assert("N"@ =~= seq!['N']);
    match gear {
        Some(g) => {
            if g > 0 {
                crate::laws::words::law_decimal(g as nat);
            }
        },
        None => {},
    }
}

/// The colour of a gear: gray without a game, else red above a share of 0.9 of the highest
/// engine speed, yellow above 0.7, and green up to there.
pub open spec fn is_gear_color(color: Rgba, gear: Option<i8>, share: u32) -> bool {
    &&& gear is None ==> is_rgb(color, 70, 70, 70)
    &&& gear is Some && 0x3F66_6666 < share <= 0x7F80_0000 ==> is_rgb(color, 255, 40, 40)
    &&& gear is Some && 0x3F33_3333 < share <= 0x3F66_6666 ==> is_rgb(color, 255, 210, 30)
    &&& gear is Some && !(0x3F33_3333 < share <= 0x7F80_0000) ==> is_rgb(color, 50, 215, 50)
}

/// How a gear is coloured.
proof fn lemma_gear_color(gear: Option<i8>, rpm_pct: Single)
    ensures
        is_gear_color(crate::widgets::gear_color(gear, rpm_pct), gear, rpm_pct.bits),
{
    crate::laws::numbers::law_larger(rpm_pct, Single::of(0x3F66_6666));
    crate::laws::numbers::law_larger(rpm_pct, Single::of(0x3F33_3333));
}

/// The gear widget has the colour of its gear.
#[verifier::rlimit(30)]
pub proof fn law_gear_widget_color(s: Overlay, h: Single, available: Single, colors: Palette)
    requires
        s.show_gear,
    ensures
        s.widgets(h, available, colors)[place(s.show_graph)] matches WidgetView::Gear {
            width,
            gear,
        } && is_gear_color(gear.color, s.gear, s.rpm_pct.bits),
{
    lemma_gear_color(s.gear, s.rpm_pct);
}

/// The gear widget's sizes: the text 36 points, the corners 6 and the outline half a point,
/// scaled with the height; and its box in the colours of the palette.
pub proof fn law_gear_sizes(
    gear: Option<i8>,
    rpm_pct: Single,
    h: Single,
    colors: Palette,
)
    requires
        crate::laws::sizes::is_height(h),
    ensures
        ({
            let face: GearView = crate::widgets::gear_face(gear, rpm_pct, h, colors);
            &&& crate::laws::sizes::sized(face.font, 36 * pow2(149), h, 56)
            &&& crate::laws::sizes::sized(face.corner, 6 * pow2(149), h, 56)
            &&& crate::laws::sizes::sized(face.outline.width, pow2(148), h, 56)
            &&& face.fill == colors.gear_fill
            &&& face.outline.color == colors.gear_outline
        }),
{
    crate::laws::sizes::law_size(36, h);
    crate::laws::sizes::law_size(6, h);
    crate::laws::sizes::law_half_size(h);
}

/// The speed widget shows the speed: a gray zero without a game, else the speed as a whole
/// number, in white.
#[verifier::rlimit(30)]
pub proof fn law_speed_widget(s: Overlay, h: Single, available: Single, colors: Palette)
    requires
        s.show_speed,
    ensures
        s.widgets(h, available, colors)[place(s.show_graph) + place(s.show_gear)] matches
            WidgetView::Speed { width, speed } && {
            &&& s.speed_kmh is None ==> speed.text == seq!['0'] && is_rgb(speed.color, 55, 55, 55)
            &&& s.speed_kmh is Some ==> is_rgb(speed.color, 255, 255, 255)
            &&& s.speed_kmh matches Some(x) ==> speed.text == crate::text::whole_number(x)
            &&& speed.unit == "km/h"@
            &&& is_rgb(speed.unit_color, 110, 110, 110)
        },
{
    reveal_strlit("0");
    assert("0"@ =~= seq!['0']);
}

/// The speed widget's sizes: the number 28 points, raised by 4, and the unit 10 points,
/// raised by 2, scaled with the height.
pub proof fn law_speed_sizes(speed: Option<Single>, h: Single)
    requires
        crate::laws::sizes::is_height(h),
    ensures
        ({
            let face: SpeedView = crate::widgets::speed_face(speed, h);
            &&& crate::laws::sizes::sized(face.font, 28 * pow2(149), h, 56)
            &&& crate::laws::sizes::sized(face.lift, 4 * pow2(149), h, 56)
            &&& crate::laws::sizes::sized(face.unit_font, 10 * pow2(149), h, 56)
            &&& crate::laws::sizes::sized(face.unit_lift, 2 * pow2(149), h, 56)
        }),
{
    crate::laws::sizes::law_size(28, h);
    crate::laws::sizes::law_size(4, h);
    crate::laws::sizes::law_size(10, h);
    crate::laws::sizes::law_size(2, h);
}

/// The graph widget shows the history: its lines are those of the samples that the overlay
/// holds, with a glow of the palette's, in a box of its colours.
#[verifier::rlimit(30)]
pub proof fn law_graph_widget(s: Overlay, h: Single, available: Single, colors: Palette)
    requires
        s.show_graph,
    ensures
        s.widgets(h, available, colors)[0] matches WidgetView::Graph { width, graph } && {
            &&& graph.lines == crate::widgets::graph_lines(s.history, h, colors.glow)
            &&& graph.fill == colors.graph_fill
            &&& graph.outline.color == colors.graph_outline
        },
{
}

/// The graph widget's sizes: corners of 6 points, an outline of half a point and a margin
/// of one, scaled with the height.
pub proof fn law_graph_sizes(history: Seq<Sample>, h: Single, colors: Palette)
    requires
        crate::laws::sizes::is_height(h),
    ensures
        ({
            let face: GraphView = crate::widgets::graph_face(history, h, colors);
            &&& crate::laws::sizes::sized(face.corner, 6 * pow2(149), h, 56)
            &&& crate::laws::sizes::sized(face.margin, pow2(149), h, 56)
            &&& crate::laws::sizes::sized(face.outline.width, pow2(148), h, 56)
        }),
{
    crate::laws::sizes::law_size(6, h);
    crate::laws::sizes::law_size(1, h);
    crate::laws::sizes::law_half_size(h);
}

/// A size of `n` points, made larger or smaller by the factor `cx`, counted in units.
#[verifier::rlimit(30)]
proof fn lemma_part(n: u64, cx: Single, h: Single)
    requires
        crate::laws::sizes::is_height(h),
        2 <= n <= 28,
        cx.finite() && !cx.negative(),
        pow2(147) <= cx.units() <= 8 * pow2(149),
    ensures
        ({
            let r: int = crate::layout::scaled(n as nat, h).product(cx).units();
            crate::laws::numbers::apart(56 * r * pow2(149), n * h.units() * cx.units()) * 0x4_0000
                <= n * h.units() * cx.units()
        }),
{
    let w: Single = crate::layout::scaled(n as nat, h);
    let o: int = pow2(149) as int;
    let x: int = h.units();
    let y: int = w.units();
    let c: int = cx.units();
    let nx: int = n * x;
    crate::laws::sizes::law_size(n as nat, h);
    crate::laws::sizes::lemma_height(h);
    lemma_pow2_pos(149);
    lemma_pow2_pos(147);
    assert(n * pow2(149) * x == nx * o) by (nonlinear_arith)
        requires
            o == pow2(149),
            nx == n * x,
    ;
    assert(56 * y * o == (56 * y) * o) by (nonlinear_arith);
    assert(2 * x <= nx <= 28 * x) by (nonlinear_arith)
        requires
            2 <= n <= 28,
            nx == n * x,
            x >= 0,
    ;
    lemma_cancel(56 * y, nx, 0x10_0000, o);
    let d: int = crate::laws::numbers::apart(56 * y, nx);
    // No overflow.
    lemma2_to64();
    lemma_pow2_adds(3, 149);
    lemma_pow2_adds(213, 152);
    lemma_pow2_adds(277, 149);
    lemma_pow2_strictly_increases(365, 426);
    assert(0 < y <= x);
    assert(0 <= y * c <= pow2(213) * pow2(152)) by (nonlinear_arith)
        requires
            0 < y <= pow2(213),
            0 <= c <= pow2(152),
    ;
    crate::laws::numbers::law_product_close(w, cx);
    let r: int = w.product(cx).units();
    let yc: int = y * c;
    let e: int = crate::laws::numbers::apart(r * o, yc);
    lemma_pow2_strictly_increases(60, 147);
    lemma2_to64_rest();
    assert(56 * y >= x);
    assert(0x80_0000 * o <= yc) by (nonlinear_arith)
        requires
            yc == y * c,
            56 * y >= x,
            x >= o,
            c >= 0x1_0000_0000,
            o > 0,
    ;
    assert(e * 0x80_0000 <= yc);
    let xc: int = nx * c;
    assert(crate::laws::numbers::apart(56 * yc, xc) == d * c) by (nonlinear_arith)
        requires
            yc == y * c,
            xc == nx * c,
            d == crate::laws::numbers::apart(56 * y, nx),
            c > 0,
    ;
    assert((d * c) * 0x10_0000 <= xc) by (nonlinear_arith)
        requires
            d * 0x10_0000 <= nx,
            xc == nx * c,
            c > 0,
    ;
    assert(xc > 0) by (nonlinear_arith)
        requires
            xc == nx * c,
            nx > 0,
            c > 0,
    ;
    assert(56 * yc <= 2 * xc);
    assert(56 * r * o == 56 * (r * o)) by (nonlinear_arith);
    assert(crate::laws::numbers::apart(56 * (r * o), xc) <= 56 * e + d * c);
}

/// The widths of the graph's lines, scaled with the height: plain ones 2 points, the glow
/// 8, the purple line 1.2 and the clutch 1.5.
#[verifier::rlimit(30)]
pub proof fn law_line_widths(history: Seq<Sample>, h: Single, glow: Rgba)
    requires
        crate::laws::sizes::is_height(h),
    ensures
        ({
            let lines: Seq<LineView> = crate::widgets::graph_lines(history, h, glow);
            let throttle: Seq<SegmentView> = Trace::Throttle.segments(history);
            let brake: Seq<SegmentView> = Trace::Brake.segments(history);
            let first: int = crate::laws::graph::count_on(throttle) as int;
            let cut: int = first + throttle.len();
            let red: int = cut + place(crate::laws::graph::had_tc(history));
            let blue: int = red + brake.len();
            &&& forall|i: int|
                0 <= i < first ==>
                    crate::laws::numbers::apart(56 * (#[trigger] lines[i]).width.units(), 8 * h.units())
                    * 0x4_0000 <= 8 * h.units()
            &&& forall|i: int|
                first <= i < cut ==>
                    crate::laws::sizes::sized((#[trigger] lines[i]).width, 2 * pow2(149), h, 56)
            &&& cut < red ==>
                crate::laws::numbers::apart(280 * lines[cut].width.units(), 6 * h.units())
                    * 0x2_0000 <= 6
                * h.units()
            &&& forall|i: int|
                red <= i < blue ==>
                    crate::laws::sizes::sized((#[trigger] lines[i]).width, 2 * pow2(149), h, 56)
            &&& crate::laws::numbers::apart(112 * lines[blue].width.units(), 3 * h.units())
                * 0x4_0000 <= 3 * h.units()
        }),
{
    let o: int = pow2(149) as int;
    let x: int = h.units();
    let throttle: Seq<SegmentView> = Trace::Throttle.segments(history);
    let width: Single = crate::widgets::line_width(h);
    let glow_width: Single = width.product(Single::of_whole(4));
    crate::laws::sizes::law_size(2, h);
    crate::laws::sizes::lemma_height(h);
    crate::laws::graph::lemma_glow(throttle, glow, glow_width);
    crate::laws::graph::law_lines(history, h, glow);
    assert(crate::laws::graph::had_tc(history) == crate::widgets::any_tc(history));
    lemma_factors();
    lemma_part(2, Single::of_whole(4), h);
    lemma_part(2, Single::of(0x3F19_999A), h);
    lemma_part(2, Single::of(0x3F40_0000), h);
    lemma_glow_width(glow_width.units(), x);
    lemma_cut_width(width.product(Single::of(0x3F19_999A)).units(), x);
    lemma_clutch_width(width.product(Single::of(0x3F40_0000)).units(), x);
}

/// The factors of the lines' widths, counted in units.
proof fn lemma_factors()
    ensures
        Single::of_whole(4).finite() && !Single::of_whole(4).negative(),
        Single::of_whole(4).units() == 4 * pow2(149),
        Single::of(0x3F19_999A).units() == 10066330 * pow2(125),
        Single::of(0x3F40_0000).units() == 3 * pow2(147),
        pow2(149) == 0x100_0000 * pow2(125),
        pow2(149) == 4 * pow2(147),
        pow2(147) == 0x40_0000 * pow2(125),
        pow2(125) > 0,
{
    lemma2_to64();
    crate::layout::lemma_whole_exact(4, 21);
    crate::single::lemma_magnitude_of(10066330, 125);
    crate::single::lemma_magnitude_of(0xC0_0000, 125);
    lemma_pow2_adds(22, 125);
    lemma_pow2_adds(24, 125);
    lemma_pow2_adds(2, 147);
    lemma_pow2_pos(125);
}

/// Four times the plain width.
proof fn lemma_glow_width(r: int, x: int)
    requires
        x > 0,
        crate::laws::numbers::apart(56 * r * pow2(149), 2 * x * (4 * pow2(149)))
            * 0x4_0000 <= 2 * x * (4 * pow2(149)),
    ensures
        crate::laws::numbers::apart(56 * r, 8 * x) * 0x4_0000 <= 8 * x,
{
    let o: int = pow2(149) as int;
    lemma_pow2_pos(149);
    assert(2 * x * (4 * o) == (8 * x) * o) by (nonlinear_arith);
    assert(56 * r * o == (56 * r) * o) by (nonlinear_arith);
    lemma_cancel(56 * r, 8 * x, 0x4_0000, o);
}

/// A common factor does not matter.
pub proof fn lemma_cancel(a: int, b: int, k: int, o: int)
    requires
        o > 0,
        k > 0,
        crate::laws::numbers::apart(a * o, b * o) * k <= b * o,
    ensures
        crate::laws::numbers::apart(a, b) * k <= b,
{
    let d: int = crate::laws::numbers::apart(a, b);
    assert(crate::laws::numbers::apart(a * o, b * o) == d * o) by (nonlinear_arith)
        requires
            d == crate::laws::numbers::apart(a, b),
            o > 0,
    ;
    assert(d * k <= b) by (nonlinear_arith)
        requires
            (d * o) * k <= b * o,
            o > 0,
    ;
}

/// Three fifths of the plain width.
proof fn lemma_cut_width(r: int, x: int)
    requires
        x > 0,
        pow2(149) == 0x100_0000 * pow2(125),
        pow2(125) > 0,
        crate::laws::numbers::apart(56 * r * pow2(149), 2 * x * (10066330 * pow2(125)))
            * 0x4_0000 <= 2 * x * (10066330
            * pow2(125)),
    ensures
        crate::laws::numbers::apart(280 * r, 6 * x) * 0x2_0000 <= 6 * x,
{
    let q: int = pow2(125) as int;
    let o: int = pow2(149) as int;
    assert(56 * r * o == (56 * r * 0x100_0000) * q) by (nonlinear_arith)
        requires
            o == 0x100_0000 * q,
    ;
    assert(2 * x * (10066330 * q) == (2 * x * 10066330) * q) by (nonlinear_arith);
    lemma_cancel(56 * r * 0x100_0000, 2 * x * 10066330, 0x4_0000, q);
}

/// Three quarters of the plain width.
proof fn lemma_clutch_width(r: int, x: int)
    requires
        x > 0,
        pow2(149) == 4 * pow2(147),
        crate::laws::numbers::apart(56 * r * pow2(149), 2 * x * (3 * pow2(147)))
            * 0x4_0000 <= 2 * x * (3 * pow2(147)),
    ensures
        crate::laws::numbers::apart(112 * r, 3 * x) * 0x4_0000 <= 3 * x,
{
    let q: int = pow2(147) as int;
    let o: int = pow2(149) as int;
    lemma_pow2_pos(147);
    assert(56 * r * o == (224 * r) * q) by (nonlinear_arith)
        requires
            o == 4 * q,
    ;
    assert(2 * x * (3 * q) == (6 * x) * q) by (nonlinear_arith);
    lemma_cancel(224 * r, 6 * x, 0x4_0000, q);
}

/// The wheel's sizes, scaled with the height: a rim of 23 points around the middle, drawn
/// with 3.5 and with 2 points, a hub of 4, drawn with 1.5, and spokes up to 22, drawn with
/// 2.5 and with 1.5; and its grays.
pub proof fn law_wheel_sizes(steer: Single, h: Single)
    requires
        crate::laws::sizes::is_height(h),
    ensures
        ({
            let face: WheelFace = crate::widgets::wheel_face(steer, h);
            &&& crate::laws::numbers::apart(56 * face.radius.units(), 23 * h.units())
                * 0x4_0000 <= 23 * h.units()
            &&& crate::laws::numbers::apart(56 * face.spoke_end.units(), 22 * h.units())
                * 0x2_0000 <= 22 * h.units()
            &&& crate::laws::sizes::sized(face.rim.0.width, 7 * pow2(148), h, 56)
            &&& crate::laws::sizes::sized(face.rim.1.width, 2 * pow2(149), h, 56)
            &&& crate::laws::sizes::sized(face.hub_radius, 4 * pow2(149), h, 56)
            &&& crate::laws::sizes::sized(face.hub.width, 3 * pow2(148), h, 56)
            &&& crate::laws::sizes::sized(face.spoke.0.width, 5 * pow2(148), h, 56)
            &&& crate::laws::sizes::sized(face.spoke.1.width, 3 * pow2(148), h, 56)
            &&& is_rgb(face.rim.0.color, 60, 60, 60) && is_rgb(face.rim.1.color, 180, 180, 180)
            &&& is_rgb(face.hub_fill, 50, 50, 50) && is_rgb(face.hub.color, 160, 160, 160)
            &&& is_rgb(face.spoke.0.color, 55, 55, 55) && is_rgb(face.spoke.1.color, 140, 140, 140)
        }),
{
    crate::laws::sizes::law_size(2, h);
    crate::laws::sizes::law_size(4, h);
    crate::laws::sizes::law_half_size(h);
    lemma_radius(h);
}

/// The radius of the rim, and the end of the spokes.
proof fn lemma_radius(h: Single)
    requires
        crate::laws::sizes::is_height(h),
    ensures
        ({
            let five: Single = crate::layout::scaled(5, h);
            let one: Single = crate::layout::scaled(1, h);
            let radius: Single = h.quotient(Single::of_whole(2)).difference(five);
            &&& crate::laws::numbers::apart(56 * radius.units(), 23 * h.units())
                * 0x4_0000 <= 23 * h.units()
            &&& crate::laws::numbers::apart(56 * radius.difference(one).units(), 22 * h.units())
                * 0x2_0000 <= 22
                * h.units()
        }),
{
    let o: int = pow2(149) as int;
    let x: int = h.units();
    let five: Single = crate::layout::scaled(5, h);
    let one: Single = crate::layout::scaled(1, h);
    let half: Single = h.quotient(Single::of_whole(2));
    let radius: Single = half.difference(five);
    crate::laws::sizes::lemma_height(h);
    crate::laws::sizes::law_size(5, h);
    crate::laws::sizes::law_size(1, h);
    lemma2_to64();
    lemma2_to64_rest();
    crate::layout::lemma_whole_exact(2, 22);
    crate::laws::sizes::lemma_scale(h, Single::of_whole(2), 2);
    lemma_pow2_pos(149);
    assert(5 * pow2(149) * x == (5 * x) * o) by (nonlinear_arith)
        requires
            o == pow2(149),
    ;
    assert(56 * five.units() * o == (56 * five.units()) * o) by (nonlinear_arith);
    lemma_cancel(56 * five.units(), 5 * x, 0x10_0000, o);
    assert(1 * pow2(149) * x == x * o) by (nonlinear_arith)
        requires
            o == pow2(149),
    ;
    assert(56 * one.units() * o == (56 * one.units()) * o) by (nonlinear_arith);
    lemma_cancel(56 * one.units(), x, 0x10_0000, o);
    lemma_pow2_strictly_increases(214, 277);
    lemma_pow2_unfold(214);
    lemma_pow2_strictly_increases(60, 149);
    crate::laws::numbers::law_difference_close(half, five);
    lemma_not_infinite(radius, radius.units(), 213);
    crate::laws::numbers::law_difference_close(radius, one);
}

/// A single of at most 2^`k` units is finite, for `k` below 277.
pub proof fn lemma_not_infinite(r: Single, x: int, k: nat)
    requires
        !r.nan(),
        r.units() == x,
        -pow2(k) <= x <= pow2(k),
        k < 277,
    ensures
        r.finite(),
{
    lemma_pow2_strictly_increases(k, 277);
    crate::single::lemma_magnitude_of(0x80_0000, 254);
    lemma2_to64();
    lemma_pow2_adds(23, 254);
    if r.pattern() >= 0x7F80_0000 {
        crate::single::lemma_magnitude_monotone(0x7F80_0000, r.pattern());
    }
}

/// The grip's sizes: a square of 14 points, its shorter line from 7.7 points on, drawn with
/// 1.5 points, scaled with the height.
pub proof fn law_grip_size(h: Single)
    requires
        crate::laws::sizes::is_height(h),
    ensures
        ({
            let size: GripSize = crate::widgets::grip_size(h);
            &&& crate::laws::sizes::sized(size.side, 14 * pow2(149), h, 56)
            &&& crate::laws::sizes::sized(size.line, 3 * pow2(148), h, 56)
            &&& crate::laws::numbers::apart(560 * size.inner.units(), 77 * h.units()) * 0x2_0000
                <= 77 * h.units()
        }),
{
    crate::laws::sizes::law_size(14, h);
    crate::laws::sizes::law_half_size(h);
    crate::laws::sizes::lemma_height(h);
    crate::single::lemma_magnitude_of(9227469, 125);
    lemma_factors();
    lemma_part(14, Single::of(0x3F0C_CCCD), h);
    lemma_inner(crate::widgets::grip_size(h).inner.units(), h.units());
}

/// A little more than the half of the side.
proof fn lemma_inner(r: int, x: int)
    requires
        x > 0,
        pow2(149) == 0x100_0000 * pow2(125),
        pow2(125) > 0,
        crate::laws::numbers::apart(56 * r * pow2(149), 14 * x * (9227469 * pow2(125))) * 0x4_0000
            <= 14 * x * (9227469 * pow2(125)),
    ensures
        crate::laws::numbers::apart(560 * r, 77 * x) * 0x2_0000 <= 77 * x,
{
    let q: int = pow2(125) as int;
    let o: int = pow2(149) as int;
    assert(56 * r * o == (56 * r * 0x100_0000) * q) by (nonlinear_arith)
        requires
            o == 0x100_0000 * q,
    ;
    assert(14 * x * (9227469 * q) == (14 * x * 9227469) * q) by (nonlinear_arith);
    lemma_cancel(56 * r * 0x100_0000, 14 * x * 9227469, 0x4_0000, q);
}

/// A corner that is hovered remembers since when; one that is not forgets it. The grip is
/// seen once the corner was hovered for half a second, and only then does dragging it
/// resize the window. While the corner is hovered the next frame is wanted at once.
pub proof fn law_grip_waits(start: Option<u64>, hovered: bool, drag_started: bool, now: u64)
    ensures
        ({
            let since: Option<u64> = crate::widgets::hover_start(start, hovered, now);
            let grip: crate::widgets::Grip = crate::widgets::grip_shown(
                start,
                hovered,
                drag_started,
                now,
            );
            &&& !hovered ==> since is None
            &&& hovered && start is Some ==> since == start
            &&& hovered && start is None ==> since == Some(now)
            &&& grip.visible <==> hovered && (start matches Some(t) && now - t >= 500_000_000)
            &&& grip.resize <==> grip.visible && drag_started
            &&& grip.repaint <==> hovered
        }),
{
}

} // verus!

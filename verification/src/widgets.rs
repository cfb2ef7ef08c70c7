//! What the widgets show: the pedal graph, the gear, the speed, the wheel and the resize
//! grip.

use crate::color::from_gray;
use crate::color::from_rgb;
use crate::color::palette;
use crate::color::Palette;
use crate::color::Rgba;
use crate::layout::scale_of;
use crate::layout::size;
use crate::overlay::Sample;
use crate::single::Single;
use crate::single::ONE_HALF;
use crate::text::decimal_text;
use crate::text::whole_text;
use std::collections::VecDeque;
use vstd::prelude::*;

verus! {

/// The pattern of 0.05: above it the brake trace shows ABS.
pub const ABS_SHOWN: u32 = 0x3D4C_CCCD;

/// The pattern of 0.6, the share of a plain line's width that the throttle of the game
/// takes.
pub const CUT_WIDTH: u32 = 0x3F19_999A;

/// The pattern of 0.75, the share of a plain line's width that the clutch takes.
pub const CLUTCH_WIDTH: u32 = 0x3F40_0000;

/// The pattern of 0.9: above it the engine is at its limit.
pub const RPM_LIMIT: u32 = 0x3F66_6666;

/// The pattern of 0.7: above it the engine is near its limit.
pub const RPM_HIGH: u32 = 0x3F33_3333;

/// How long, in nanoseconds, the corner is hovered before the grip appears.
pub const GRIP_DELAY: u64 = 500_000_000;

/// A pen.
#[derive(Clone, Copy, PartialEq, Eq, Structural, Debug)]
pub struct Pen {
    pub width: Single,
    pub color: Rgba,
}

/// A size given by its pattern, scaled.
pub open spec fn scaled_pattern(bits: u32, h: Single) -> Single {
    Single::of(bits).product(crate::layout::scale(h))
}

/// A size given by its pattern, scaled.
fn size_of_pattern(bits: u32, h: Single) -> (r: Single)
    ensures
        r == scaled_pattern(bits, h),
{
    Single { bits }.times(scale_of(h))
}

// ---------------------------------------------------------------------------------------
// Pedal graph
// ---------------------------------------------------------------------------------------

/// A pedal at one moment.
#[derive(Clone, Copy, PartialEq, Eq, Structural, Debug)]
pub struct GraphPoint {
    pub t: u64,
    pub level: Single,
}

/// A stretch of a trace during which an assist was on, or off.
#[derive(Debug)]
pub struct Segment {
    pub points: Vec<GraphPoint>,
    pub on: bool,
}

/// What a [`Segment`] holds.
#[verifier::ext_equal]
pub struct SegmentView {
    pub points: Seq<GraphPoint>,
    pub on: bool,
}

impl View for Segment {
    type V = SegmentView;

    open spec fn view(&self) -> SegmentView {
        SegmentView { points: self.points@, on: self.on }
    }
}

/// A line of the graph.
#[derive(Debug)]
pub struct GraphLine {
    pub points: Vec<GraphPoint>,
    pub color: Rgba,
    pub width: Single,
}

/// What a [`GraphLine`] holds.
#[verifier::ext_equal]
pub struct LineView {
    pub points: Seq<GraphPoint>,
    pub color: Rgba,
    pub width: Single,
}

impl View for GraphLine {
    type V = LineView;

    open spec fn view(&self) -> LineView {
        LineView { points: self.points@, color: self.color, width: self.width }
    }
}

/// What the graph traces.
#[derive(Clone, Copy, PartialEq, Eq, Structural, Debug)]
pub enum Trace {
    Throttle,
    /// The throttle as the game applies it.
    ThrottleGame,
    Brake,
    Clutch,
}

impl Trace {
    /// The point that a sample adds to the trace.
    pub open spec fn point(self, sample: Sample) -> GraphPoint {
        GraphPoint {
            t: sample.t,
            level: match self {
                Trace::Throttle => sample.throttle,
                Trace::ThrottleGame => sample.throttle_game,
                Trace::Brake => sample.brake,
                Trace::Clutch => sample.clutch,
            },
        }
    }

    /// The assist that belongs to the trace was on: traction control for the throttle, ABS
    /// for the brake.
    pub open spec fn assisted(self, sample: Sample) -> bool {
        match self {
            Trace::Throttle => sample.tc_active,
            Trace::Brake => sample.abs_vibration.exceeds(Single { bits: ABS_SHOWN }),
            _ => false,
        }
    }

    /// All points of the trace.
    pub open spec fn points(self, history: Seq<Sample>) -> Seq<GraphPoint> {
        history.map_values(|s: Sample| self.point(s))
    }

    /// The trace, split where the assist goes on or off. A segment begins with the point
    /// at which the one before it ends, so that the line has no gaps.
    pub open spec fn segments(self, history: Seq<Sample>) -> Seq<SegmentView>
        decreases history.len(),
    {
        if history.len() == 0 {
            Seq::empty()
        } else {
            let before = self.segments(history.drop_last());
            let point = self.point(history.last());
            let on = self.assisted(history.last());
            if before.len() == 0 {
                seq![SegmentView { points: seq![point], on }]
            } else if before.last().on == on {
                before.drop_last().push(
                    SegmentView { points: before.last().points.push(point), on },
                )
            } else {
                before.push(SegmentView { points: seq![before.last().points.last(), point], on })
            }
        }
    }

    /// The point that a sample adds to the trace.
    fn point_of(self, sample: &Sample) -> (r: GraphPoint)
        ensures
            r == self.point(*sample),
    {
        let level: Single = match self {
            Trace::Throttle => sample.throttle,
            Trace::ThrottleGame => sample.throttle_game,
            Trace::Brake => sample.brake,
            Trace::Clutch => sample.clutch,
        };
        GraphPoint { t: sample.t, level }
    }

    /// Whether the assist that belongs to the trace was on.
    fn is_assisted(self, sample: &Sample) -> (r: bool)
        ensures
            r == self.assisted(*sample),
    {
        match self {
            Trace::Throttle => sample.tc_active,
            Trace::Brake => sample.abs_vibration.gt(Single { bits: ABS_SHOWN }),
            _ => false,
        }
    }

    /// All points of the trace.
    pub fn collect_points(self, history: &VecDeque<Sample>) -> (points: Vec<GraphPoint>)
        ensures
            points@ == self.points(history@),
    {
        let mut points: Vec<GraphPoint> = Vec::new();
        let mut i: usize = 0;
        while i < history.len()
            invariant
                i <= history.len(),
                points@ == self.points(history@.take(i as int)),
            decreases history.len() - i,
        {
            points.push(self.point_of(&history[i]));
            assert(points@ =~= self.points(history@.take(i + 1)));
            i = i + 1;
        }
        assert(history@.take(history@.len() as int) =~= history@);
        points
    }

    /// The trace, split where the assist goes on or off.
    pub fn split(self, history: &VecDeque<Sample>) -> (segments: Vec<Segment>)
        ensures
            segments@.map_values(|s: Segment| s@) == self.segments(history@),
    {
        let mut segments: Vec<Segment> = Vec::new();
        let mut i: usize = 0;
        assert(segments@.map_values(|s: Segment| s@) =~= self.segments(history@.take(0)));
        while i < history.len()
            invariant
                i <= history.len(),
                segments@.map_values(|s: Segment| s@) == self.segments(history@.take(i as int)),
            decreases history.len() - i,
        {
            let ghost views = segments@.map_values(|s: Segment| s@);
            proof {
                assert(history@.take(i + 1).drop_last() =~= history@.take(i as int));
                lemma_segments_shape(self, history@.take(i as int));
                assert(views.len() == segments@.len());
            }
            let point: GraphPoint = self.point_of(&history[i]);
            let on: bool = self.is_assisted(&history[i]);
            match segments.pop() {
                None => {
                    segments.push(Segment { points: vec![point], on });
                },
                Some(last) => {
                    let mut last: Segment = last;
                    assert(views.last() == last@);
                    if last.on == on {
                        last.points.push(point);
                        segments.push(last);
                    } else {
                        let bridge: GraphPoint = last.points[last.points.len() - 1];
                        segments.push(last);
                        segments.push(Segment { points: vec![bridge, point], on });
                    }
                },
            }
            assert(segments@.map_values(|s: Segment| s@) =~~= self.segments(history@.take(i + 1)));
            i = i + 1;
        }
        assert(history@.take(history@.len() as int) =~= history@);
        segments
    }
}

/// There are segments where there are samples, and no segment is empty.
proof fn lemma_segments_shape(trace: Trace, history: Seq<Sample>)
    ensures
        history.len() > 0 ==> trace.segments(history).len() > 0,
        history.len() == 0 ==> trace.segments(history).len() == 0,
        forall|i: int|
            0 <= i < trace.segments(history).len() ==> (#[trigger] trace.segments(
                history,
            )[i]).points.len() > 0,
    decreases history.len(),
{
    if history.len() > 0 {
        lemma_segments_shape(trace, history.drop_last());
    }
}

/// Some sample was taken under traction control.
pub open spec fn any_tc(history: Seq<Sample>) -> bool {
    exists|i: int| 0 <= i < history.len() && (#[trigger] history[i]).tc_active
}

/// The width of a plain line.
pub open spec fn line_width(h: Single) -> Single {
    crate::layout::scaled(2, h)
}

/// The plain line of a segment, in the colour of its state.
pub open spec fn segment_line(
    segment: SegmentView,
    normal: Rgba,
    assisted: Rgba,
    width: Single,
) -> LineView {
    LineView {
        points: segment.points,
        color: if segment.on {
            assisted
        } else {
            normal
        },
        width,
    }
}

/// The plain lines of all segments.
pub open spec fn segment_lines(
    segments: Seq<SegmentView>,
    normal: Rgba,
    assisted: Rgba,
    width: Single,
) -> Seq<LineView> {
    segments.map_values(|s: SegmentView| segment_line(s, normal, assisted, width))
}

/// A line behind each segment in which the assist was on.
pub open spec fn glow_lines(segments: Seq<SegmentView>, glow: Rgba, width: Single) -> Seq<LineView>
    decreases segments.len(),
{
    if segments.len() == 0 {
        Seq::empty()
    } else if segments.last().on {
        glow_lines(segments.drop_last(), glow, width).push(
            LineView { points: segments.last().points, color: glow, width },
        )
    } else {
        glow_lines(segments.drop_last(), glow, width)
    }
}

/// The throttle as the game applies it, a thin purple line where traction control was on
/// at all.
pub open spec fn cut_lines(history: Seq<Sample>, width: Single) -> Seq<LineView> {
    if any_tc(history) {
        seq![
            LineView {
                points: Trace::ThrottleGame.points(history),
                color: Rgba::opaque(180, 100, 255),
                width,
            },
        ]
    } else {
        seq![]
    }
}

/// The lines of the graph, from the back to the front: the wide glow of traction control,
/// the throttle (green, or yellow under traction control), the throttle that the game
/// applies, the brake (red, or orange under ABS) and the clutch (blue).
pub open spec fn graph_lines(history: Seq<Sample>, h: Single, glow: Rgba) -> Seq<LineView> {
    let throttle = Trace::Throttle.segments(history);
    let brake = Trace::Brake.segments(history);
    let width = line_width(h);
    glow_lines(throttle, glow, width.product(Single::of_whole(4))) + segment_lines(
        throttle,
        Rgba::opaque(100, 220, 70),
        Rgba::opaque(255, 200, 40),
        width,
    ) + cut_lines(history, width.product(Single::of(CUT_WIDTH))) + segment_lines(
        brake,
        Rgba::opaque(240, 55, 50),
        Rgba::opaque(255, 160, 20),
        width,
    ) + seq![
        LineView {
            points: Trace::Clutch.points(history),
            color: Rgba::opaque(60, 130, 255),
            width: width.product(Single::of(CLUTCH_WIDTH)),
        },
    ]
}

/// A copy of some points.
fn copy_points(points: &Vec<GraphPoint>) -> (r: Vec<GraphPoint>)
    ensures
        r@ == points@,
{
    let mut r: Vec<GraphPoint> = Vec::new();
    let mut i: usize = 0;
    while i < points.len()
        invariant
            i <= points.len(),
            r@ == points@.take(i as int),
        decreases points.len() - i,
    {
        r.push(points[i]);
        assert(r@ =~= points@.take(i + 1));
        i = i + 1;
    }
    assert(points@.take(points@.len() as int) =~= points@);
    r
}

/// Adds the glow of some segments to the lines.
fn push_glow(lines: &mut Vec<GraphLine>, segments: &Vec<Segment>, glow: Rgba, width: Single)
    ensures
        final(lines)@.map_values(|l: GraphLine| l@) == old(lines)@.map_values(
            |l: GraphLine| l@,
        ) + glow_lines(segments@.map_values(|s: Segment| s@), glow, width),
{
    let ghost views = segments@.map_values(|s: Segment| s@);
    let ghost start = lines@.map_values(|l: GraphLine| l@);
    let mut i: usize = 0;
    assert(start =~= start + glow_lines(views.take(0), glow, width));
    while i < segments.len()
        invariant
            i <= segments.len(),
            views == segments@.map_values(|s: Segment| s@),
            lines@.map_values(|l: GraphLine| l@) == start + glow_lines(
                views.take(i as int),
                glow,
                width,
            ),
        decreases segments.len() - i,
    {
        let ghost before = lines@;
        assert(views.take(i + 1).drop_last() =~= views.take(i as int));
        assert(views[i as int] == segments@[i as int]@);
        if segments[i].on {
            let points: Vec<GraphPoint> = copy_points(&segments[i].points);
            lines.push(GraphLine { points, color: glow, width });
            assert(lines@.map_values(|l: GraphLine| l@) =~= before.map_values(
                |l: GraphLine| l@,
            ).push(lines@.last()@));
        }
        assert(lines@.map_values(|l: GraphLine| l@) =~= start + glow_lines(
            views.take(i + 1),
            glow,
            width,
        ));
        i = i + 1;
    }
    assert(views.take(views.len() as int) =~= views);
}

/// Adds the plain lines of some segments to the lines.
fn push_segments(
    lines: &mut Vec<GraphLine>,
    segments: &Vec<Segment>,
    normal: Rgba,
    assisted: Rgba,
    width: Single,
)
    ensures
        final(lines)@.map_values(|l: GraphLine| l@) == old(lines)@.map_values(
            |l: GraphLine| l@,
        ) + segment_lines(segments@.map_values(|s: Segment| s@), normal, assisted, width),
{
    let ghost views = segments@.map_values(|s: Segment| s@);
    let ghost start = lines@.map_values(|l: GraphLine| l@);
    let ghost all = segment_lines(views, normal, assisted, width);
    let mut i: usize = 0;
    assert(start =~= start + all.take(0));
    while i < segments.len()
        invariant
            i <= segments.len(),
            views == segments@.map_values(|s: Segment| s@),
            all == segment_lines(views, normal, assisted, width),
            lines@.map_values(|l: GraphLine| l@) == start + all.take(i as int),
        decreases segments.len() - i,
    {
        let ghost before = lines@;
        assert(views[i as int] == segments@[i as int]@);
        let points: Vec<GraphPoint> = copy_points(&segments[i].points);
        let color: Rgba = if segments[i].on {
            assisted
        } else {
            normal
        };
        lines.push(GraphLine { points, color, width });
        proof {
            assert(lines@.last()@ =~= all[i as int]);
            assert(lines@.map_values(|l: GraphLine| l@) =~= before.map_values(
                |l: GraphLine| l@,
            ).push(all[i as int]));
            assert(start + all.take(i + 1) =~= (start + all.take(i as int)).push(all[i as int]));
        }
        i = i + 1;
    }
    assert(all.take(views.len() as int) =~= all);
}

/// Adds the line of a whole trace to the lines.
fn push_trace(
    lines: &mut Vec<GraphLine>,
    trace: Trace,
    history: &VecDeque<Sample>,
    color: Rgba,
    width: Single,
)
    ensures
        final(lines)@.map_values(|l: GraphLine| l@) == old(lines)@.map_values(
            |l: GraphLine| l@,
        ).push(LineView { points: trace.points(history@), color, width }),
{
    let points: Vec<GraphPoint> = trace.collect_points(history);
    lines.push(GraphLine { points, color, width });
    assert(final(lines)@.map_values(|l: GraphLine| l@) =~= old(lines)@.map_values(
        |l: GraphLine| l@,
    ).push(LineView { points: trace.points(history@), color, width }));
}

/// Whether some sample was taken under traction control.
fn has_any_tc(history: &VecDeque<Sample>) -> (r: bool)
    ensures
        r == any_tc(history@),
{
    let mut i: usize = 0;
    while i < history.len()
        invariant
            i <= history.len(),
            forall|j: int| 0 <= j < i ==> !(#[trigger] history@[j]).tc_active,
        decreases history.len() - i,
    {
        if history[i].tc_active {
            return true;
        }
        i = i + 1;
    }
    false
}

/// The lines of a graph of height `h`, with the glow in the given colour.
fn plan_lines(history: &VecDeque<Sample>, h: Single, glow: Rgba) -> (lines: Vec<GraphLine>)
    ensures
        lines@.map_values(|l: GraphLine| l@) == graph_lines(history@, h, glow),
{
    let throttle: Vec<Segment> = Trace::Throttle.split(history);
    let brake: Vec<Segment> = Trace::Brake.split(history);
    let width: Single = size(2, h);
    let wide: Single = width.times(Single::from_whole(4));
    let thin: Single = width.times(Single { bits: CUT_WIDTH });
    let clutch: Single = width.times(Single { bits: CLUTCH_WIDTH });
    let mut lines: Vec<GraphLine> = Vec::new();
    push_glow(&mut lines, &throttle, glow, wide);
    push_segments(&mut lines, &throttle, from_rgb(100, 220, 70), from_rgb(255, 200, 40), width);
    if has_any_tc(history) {
        push_trace(&mut lines, Trace::ThrottleGame, history, from_rgb(180, 100, 255), thin);
    }
    push_segments(&mut lines, &brake, from_rgb(240, 55, 50), from_rgb(255, 160, 20), width);
    push_trace(&mut lines, Trace::Clutch, history, from_rgb(60, 130, 255), clutch);
    assert(lines@.map_values(|l: GraphLine| l@) =~= graph_lines(history@, h, glow));
    lines
}

/// The pedal graph: a box, and the lines in it from the back to the front.
#[derive(Debug)]
pub struct GraphFace {
    pub lines: Vec<GraphLine>,
    pub fill: Rgba,
    pub outline: Pen,
    /// How round the corners of the box are.
    pub corner: Single,
    /// How far the lines stay away from the sides of the box.
    pub margin: Single,
}

/// What a [`GraphFace`] shows.
#[verifier::ext_equal]
pub struct GraphView {
    pub lines: Seq<LineView>,
    pub fill: Rgba,
    pub outline: Pen,
    pub corner: Single,
    pub margin: Single,
}

impl View for GraphFace {
    type V = GraphView;

    open spec fn view(&self) -> GraphView {
        GraphView {
            lines: self.lines@.map_values(|l: GraphLine| l@),
            fill: self.fill,
            outline: self.outline,
            corner: self.corner,
            margin: self.margin,
        }
    }
}

/// How round the corners of a box are.
pub open spec fn corner(h: Single) -> Single {
    crate::layout::scaled(6, h)
}

/// What a graph of height `h` shows.
pub open spec fn graph_face(history: Seq<Sample>, h: Single, colors: Palette) -> GraphView {
    GraphView {
        lines: graph_lines(history, h, colors.glow),
        fill: colors.graph_fill,
        outline: Pen { width: scaled_pattern(ONE_HALF, h), color: colors.graph_outline },
        corner: corner(h),
        margin: crate::layout::scaled(1, h),
    }
}

/// What a graph of height `h` shows, in the given colours.
pub fn plan_graph(history: &VecDeque<Sample>, h: Single, colors: &Palette) -> (face: GraphFace)
    ensures
        face@ == graph_face(history@, h, *colors),
{
    GraphFace {
        lines: plan_lines(history, h, colors.glow),
        fill: colors.graph_fill,
        outline: Pen { width: size_of_pattern(ONE_HALF, h), color: colors.graph_outline },
        corner: size(6, h),
        margin: size(1, h),
    }
}

/// What a pedal graph of height `h` shows.
pub fn draw_graph(history: &VecDeque<Sample>, h: Single) -> (face: GraphFace)
    ensures
        exists|colors: Palette|
            colors.genuine() && face@ == #[trigger] graph_face(history@, h, colors),
{
    let colors: Palette = palette();
    plan_graph(history, h, &colors)
}

// ---------------------------------------------------------------------------------------
// Gear
// ---------------------------------------------------------------------------------------

/// The gear: a box, and text in a colour.
#[derive(Debug)]
pub struct GearFace {
    pub text: String,
    pub color: Rgba,
    pub font: Single,
    pub fill: Rgba,
    pub outline: Pen,
    /// How round the corners of the box are.
    pub corner: Single,
}

/// What a [`GearFace`] shows.
#[verifier::ext_equal]
pub struct GearView {
    pub text: Seq<char>,
    pub color: Rgba,
    pub font: Single,
    pub fill: Rgba,
    pub outline: Pen,
    pub corner: Single,
}

impl View for GearFace {
    type V = GearView;

    open spec fn view(&self) -> GearView {
        GearView {
            text: self.text@,
            color: self.color,
            font: self.font,
            fill: self.fill,
            outline: self.outline,
            corner: self.corner,
        }
    }
}

/// How a gear is written: `R` for reverse, `N` for neutral or no gear at all, else its
/// number.
pub open spec fn gear_text(gear: Option<i8>) -> Seq<char> {
    match gear {
        Some(g) => if g < 0 {
            "R"@
        } else if g == 0 {
            "N"@
        } else {
            crate::text::decimal(g as nat)
        },
        None => "N"@,
    }
}

/// The colour of a gear: gray without a game, else green, yellow or red by how near the
/// engine is to its limit.
pub open spec fn gear_color(gear: Option<i8>, rpm_pct: Single) -> Rgba {
    if gear is None {
        Rgba::opaque(70, 70, 70)
    } else if rpm_pct.exceeds(Single { bits: RPM_LIMIT }) {
        Rgba::opaque(255, 40, 40)
    } else if rpm_pct.exceeds(Single { bits: RPM_HIGH }) {
        Rgba::opaque(255, 210, 30)
    } else {
        Rgba::opaque(50, 215, 50)
    }
}

/// What a gear widget of height `h` shows.
pub open spec fn gear_face(
    gear: Option<i8>,
    rpm_pct: Single,
    h: Single,
    colors: Palette,
) -> GearView {
    GearView {
        text: gear_text(gear),
        color: gear_color(gear, rpm_pct),
        font: crate::layout::scaled(36, h),
        fill: colors.gear_fill,
        outline: Pen { width: scaled_pattern(ONE_HALF, h), color: colors.gear_outline },
        corner: corner(h),
    }
}

/// What a gear widget of height `h` shows, in the given colours.
pub fn plan_gear(gear: Option<i8>, rpm_pct: Single, h: Single, colors: &Palette) -> (face: GearFace)
    ensures
        face@ == gear_face(gear, rpm_pct, h, *colors),
{
    let text: String = match gear {
        Some(g) => if g < 0 {
            "R".to_owned()
        } else if g == 0 {
            "N".to_owned()
        } else {
            decimal_text(g as u128)
        },
        None => "N".to_owned(),
    };
    let color: Rgba = if gear.is_none() {
        from_gray(70)
    } else if rpm_pct.gt(Single { bits: RPM_LIMIT }) {
        from_rgb(255, 40, 40)
    } else if rpm_pct.gt(Single { bits: RPM_HIGH }) {
        from_rgb(255, 210, 30)
    } else {
        from_rgb(50, 215, 50)
    };
    GearFace {
        text,
        color,
        font: size(36, h),
        fill: colors.gear_fill,
        outline: Pen { width: size_of_pattern(ONE_HALF, h), color: colors.gear_outline },
        corner: size(6, h),
    }
}

/// What a gear widget of height `h` shows.
pub fn draw_gear(gear: Option<i8>, rpm_pct: Single, h: Single) -> (face: GearFace)
    ensures
        exists|colors: Palette|
            colors.genuine() && face@ == #[trigger] gear_face(gear, rpm_pct, h, colors),
{
    let colors: Palette = palette();
    plan_gear(gear, rpm_pct, h, &colors)
}

// ---------------------------------------------------------------------------------------
// Speed
// ---------------------------------------------------------------------------------------

/// The speed in km/h, without decimals, above its unit.
#[derive(Debug)]
pub struct SpeedFace {
    pub text: String,
    pub color: Rgba,
    pub font: Single,
    /// How far above the middle the number stands.
    pub lift: Single,
    pub unit: &'static str,
    pub unit_color: Rgba,
    pub unit_font: Single,
    /// How far above the bottom the unit stands.
    pub unit_lift: Single,
}

/// What a [`SpeedFace`] shows.
#[verifier::ext_equal]
pub struct SpeedView {
    pub text: Seq<char>,
    pub color: Rgba,
    pub font: Single,
    pub lift: Single,
    pub unit: Seq<char>,
    pub unit_color: Rgba,
    pub unit_font: Single,
    pub unit_lift: Single,
}

impl View for SpeedFace {
    type V = SpeedView;

    open spec fn view(&self) -> SpeedView {
        SpeedView {
            text: self.text@,
            color: self.color,
            font: self.font,
            lift: self.lift,
            unit: self.unit@,
            unit_color: self.unit_color,
            unit_font: self.unit_font,
            unit_lift: self.unit_lift,
        }
    }
}

/// What a speed widget of height `h` shows: the speed in white, or a gray zero without a
/// game.
pub open spec fn speed_face(speed: Option<Single>, h: Single) -> SpeedView {
    SpeedView {
        text: match speed {
            Some(number) => crate::text::whole_number(number),
            None => "0"@,
        },
        color: match speed {
            Some(_) => Rgba::opaque(255, 255, 255),
            None => Rgba::opaque(55, 55, 55),
        },
        font: crate::layout::scaled(28, h),
        lift: crate::layout::scaled(4, h),
        unit: "km/h"@,
        unit_color: Rgba::opaque(110, 110, 110),
        unit_font: crate::layout::scaled(10, h),
        unit_lift: crate::layout::scaled(2, h),
    }
}

/// What a speed widget of height `h` shows.
pub fn draw_speed(speed: Option<Single>, h: Single) -> (face: SpeedFace)
    ensures
        face@ == speed_face(speed, h),
{
    let (text, color): (String, Rgba) = match speed {
        Some(number) => (whole_text(number), from_rgb(255, 255, 255)),
        None => ("0".to_owned(), from_gray(55)),
    };
    SpeedFace {
        text,
        color,
        font: size(28, h),
        lift: size(4, h),
        unit: "km/h",
        unit_color: from_gray(110),
        unit_font: size(10, h),
        unit_lift: size(2, h),
    }
}

// ---------------------------------------------------------------------------------------
// Wheel
// ---------------------------------------------------------------------------------------

/// The pattern of pi.
pub const PI: u32 = 0x4049_0FDB;

/// The pattern of 1.5.
pub const THREE_HALVES: u32 = 0x3FC0_0000;

/// The pattern of 2.5.
pub const FIVE_HALVES: u32 = 0x4020_0000;

/// The pattern of 3.5.
pub const SEVEN_HALVES: u32 = 0x4060_0000;

/// A steering wheel. Rim and spokes are drawn twice, with a dark pen below a light one.
#[derive(Clone, Copy, PartialEq, Eq, Debug)]
pub struct WheelFace {
    pub radius: Single,
    pub rim: (Pen, Pen),
    pub hub_radius: Single,
    pub hub_fill: Rgba,
    pub hub: Pen,
    /// The directions of the three spokes, in radians.
    pub spokes: (Single, Single, Single),
    /// How far from the middle the spokes end.
    pub spoke_end: Single,
    pub spoke: (Pen, Pen),
}

/// The direction of spoke `i` when the wheel is turned by the share `steer` of a quarter
/// turn. The first spoke points up when the wheel stands straight.
pub open spec fn spoke_angle(i: nat, steer: Single) -> Single {
    let pi: Single = Single::of(PI);
    let base: Single = Single::of_whole(i).product(Single::of_whole(2)).product(pi).quotient(
        Single::of_whole(3),
    ).difference(pi.quotient(Single::of_whole(2)));
    base.sum(steer.product(pi).product(Single::of(ONE_HALF)))
}

/// What a wheel widget of height `h` shows.
pub open spec fn wheel_face(steer: Single, h: Single) -> WheelFace {
    let radius: Single = h.quotient(Single::of_whole(2)).difference(crate::layout::scaled(5, h));
    WheelFace {
        radius,
        rim: (
            Pen { width: scaled_pattern(SEVEN_HALVES, h), color: Rgba::opaque(60, 60, 60) },
            Pen { width: crate::layout::scaled(2, h), color: Rgba::opaque(180, 180, 180) },
        ),
        hub_radius: crate::layout::scaled(4, h),
        hub_fill: Rgba::opaque(50, 50, 50),
        hub: Pen { width: scaled_pattern(THREE_HALVES, h), color: Rgba::opaque(160, 160, 160) },
        spokes: (spoke_angle(0, steer), spoke_angle(1, steer), spoke_angle(2, steer)),
        spoke_end: radius.difference(crate::layout::scaled(1, h)),
        spoke: (
            Pen { width: scaled_pattern(FIVE_HALVES, h), color: Rgba::opaque(55, 55, 55) },
            Pen { width: scaled_pattern(THREE_HALVES, h), color: Rgba::opaque(140, 140, 140) },
        ),
    }
}

/// The direction of spoke `i`.
fn angle(i: u32, steer: Single) -> (r: Single)
    ensures
        r == spoke_angle(i as nat, steer),
{
    let pi: Single = Single { bits: PI };
    let base: Single = Single::from_whole(i).times(Single::from_whole(2)).times(pi).over(
        Single::from_whole(3),
    ).minus(pi.over(Single::from_whole(2)));
    base.plus(steer.times(pi).times(Single { bits: ONE_HALF }))
}

/// What a wheel widget of height `h` shows.
pub fn draw_wheel(steer: Single, h: Single) -> (face: WheelFace)
    ensures
        face == wheel_face(steer, h),
{
    let radius: Single = h.over(Single::from_whole(2)).minus(size(5, h));
    let narrow: Single = size_of_pattern(THREE_HALVES, h);
    WheelFace {
        radius,
        rim: (
            Pen { width: size_of_pattern(SEVEN_HALVES, h), color: from_gray(60) },
            Pen { width: size(2, h), color: from_gray(180) },
        ),
        hub_radius: size(4, h),
        hub_fill: from_gray(50),
        hub: Pen { width: narrow, color: from_gray(160) },
        spokes: (angle(0, steer), angle(1, steer), angle(2, steer)),
        spoke_end: radius.minus(size(1, h)),
        spoke: (
            Pen { width: size_of_pattern(FIVE_HALVES, h), color: from_gray(55) },
            Pen { width: narrow, color: from_gray(140) },
        ),
    }
}

// ---------------------------------------------------------------------------------------
// Resize grip
// ---------------------------------------------------------------------------------------

/// What becomes of the resize grip in one frame.
#[derive(Clone, Copy, PartialEq, Eq, Structural, Debug)]
pub struct Grip {
    /// The grip is drawn, and the pointer shows that it resizes.
    pub visible: bool,
    /// The window begins to be resized.
    pub resize: bool,
    /// The next frame is wanted at once.
    pub repaint: bool,
}

/// The pattern of 0.55, the share of the grip's side at which its shorter line begins.
pub const INNER_SHARE: u32 = 0x3F0C_CCCD;

/// The size of the resize grip: a square in the corner, with two diagonal lines in it.
#[derive(Clone, Copy, PartialEq, Eq, Structural, Debug)]
pub struct GripSize {
    pub side: Single,
    /// How far from the corner the shorter line begins.
    pub inner: Single,
    pub line: Single,
}

/// The size of the resize grip beside widgets of height `h`.
pub open spec fn grip_size(h: Single) -> GripSize {
    GripSize {
        side: crate::layout::scaled(14, h),
        inner: crate::layout::scaled(14, h).product(Single::of(INNER_SHARE)),
        line: scaled_pattern(THREE_HALVES, h),
    }
}

/// The size of the resize grip beside widgets of height `h`.
pub fn size_grip(h: Single) -> (r: GripSize)
    ensures
        r == grip_size(h),
{
    let side: Single = size(14, h);
    GripSize {
        side,
        inner: side.times(Single { bits: INNER_SHARE }),
        line: size_of_pattern(THREE_HALVES, h),
    }
}

/// Since when the corner is hovered, once it is known whether it is hovered now.
pub open spec fn hover_start(start: Option<u64>, hovered: bool, now: u64) -> Option<u64> {
    if !hovered {
        None
    } else if start is None {
        Some(now)
    } else {
        start
    }
}

/// The corner has been hovered for long enough.
pub open spec fn grip_active(start: Option<u64>, now: u64) -> bool {
    start is Some && now - start->0 >= GRIP_DELAY
}

/// What becomes of the grip in a frame, given since when its corner was hovered before.
pub open spec fn grip_shown(
    start: Option<u64>,
    hovered: bool,
    drag_started: bool,
    now: u64,
) -> Grip {
    let visible: bool = grip_active(hover_start(start, hovered, now), now);
    Grip { visible, resize: visible && drag_started, repaint: hovered }
}

/// Follows the pointer over the corner of the window, and tells what to do there.
pub fn draw_resize_grip(
    resize_hover_start: &mut Option<u64>,
    hovered: bool,
    drag_started: bool,
    now: u64,
) -> (grip: Grip)
    ensures
        *final(resize_hover_start) == hover_start(*old(resize_hover_start), hovered, now),
        grip == (Grip {
            visible: grip_active(*final(resize_hover_start), now),
            resize: grip_active(*final(resize_hover_start), now) && drag_started,
            repaint: hovered,
        }),
        grip == grip_shown(*old(resize_hover_start), hovered, drag_started, now),
{
    if hovered {
        if resize_hover_start.is_none() {
            *resize_hover_start = Some(now);
        }
    } else {
        *resize_hover_start = None;
    }
    let visible: bool = match *resize_hover_start {
        Some(start) => now >= start && now - start >= GRIP_DELAY,
        None => false,
    };
    Grip { visible, resize: visible && drag_started, repaint: hovered }
}

// ---------------------------------------------------------------------------------------
// Laws
// ---------------------------------------------------------------------------------------

/// The points of some segments in one row, each segment after the first without the point
/// that it shares with the one before it.
pub open spec fn joined(segments: Seq<SegmentView>) -> Seq<GraphPoint>
    decreases segments.len(),
{
    if segments.len() == 0 {
        Seq::empty()
    } else if segments.len() == 1 {
        segments[0].points
    } else {
        joined(segments.drop_last()) + segments.last().points.skip(1)
    }
}

/// The segments of a trace are the trace itself: put together they give every point of it
/// once and in order, each begins where the one before it ends, and neighbours differ in
/// whether the assist was on.
pub proof fn law_segments_cover(trace: Trace, history: Seq<Sample>)
    ensures
        joined(trace.segments(history)) == trace.points(history),
        forall|i: int|
            0 < i < trace.segments(history).len() ==> {
                &&& (#[trigger] trace.segments(history)[i]).on != trace.segments(history)[i - 1].on
                &&& trace.segments(history)[i].points.len() >= 2
                &&& trace.segments(history)[i].points[0] == trace.segments(history)[i
                    - 1].points.last()
            },
        history.len() > 0 ==> {
            &&& trace.segments(history).last().on == trace.assisted(history.last())
            &&& trace.segments(history).last().points.last() == trace.point(history.last())
        },
    decreases history.len(),
{
    lemma_segments_shape(trace, history);
    if history.len() == 0 {
        assert(joined(trace.segments(history)) =~= trace.points(history));
    } else {
        let short: Seq<Sample> = history.drop_last();
        let before: Seq<SegmentView> = trace.segments(short);
        let after: Seq<SegmentView> = trace.segments(history);
        let point: GraphPoint = trace.point(history.last());
        law_segments_cover(trace, short);
        lemma_segments_shape(trace, short);
        assert(trace.points(history) =~= trace.points(short).push(point));
        if before.len() == 0 {
            assert(joined(after) =~= seq![point]);
        } else if before.last().on == trace.assisted(history.last()) {
            assert(after.drop_last() =~= before.drop_last());
            assert(after.last().points == before.last().points.push(point));
            assert forall|i: int| 0 < i < after.len() implies {
                &&& (#[trigger] after[i]).on != after[i - 1].on
                &&& after[i].points.len() >= 2
                &&& after[i].points[0] == after[i - 1].points.last()
            } by {
                assert(before[i].on != before[i - 1].on);
            }
            if after.len() == 1 {
                assert(joined(after) =~= joined(before).push(point));
            } else {
                let last: int = after.len() - 1;
                assert(before[last].points.len() >= 2);
                assert(joined(after) =~= joined(before).push(point));
            }
        } else {
            assert(after.drop_last() =~= before);
            assert forall|i: int| 0 < i < after.len() implies {
                &&& (#[trigger] after[i]).on != after[i - 1].on
                &&& after[i].points.len() >= 2
                &&& after[i].points[0] == after[i - 1].points.last()
            } by {
                if i < before.len() {
                    assert(before[i].on != before[i - 1].on);
                }
            }
            assert(joined(after) =~= joined(before).push(point));
        }
    }
}

/// Every point of a trace is drawn with the state that the assist had at its moment.
pub proof fn law_points_marked(trace: Trace, history: Seq<Sample>, i: int)
    requires
        0 <= i < history.len(),
    ensures
        exists|k: int|
            0 <= k < trace.segments(history).len() && (#[trigger] trace.segments(history)[k]).on
                == trace.assisted(history[i]) && trace.segments(history)[k].points.contains(
                trace.point(history[i]),
            ),
    decreases history.len(),
{
    let short: Seq<Sample> = history.drop_last();
    let before: Seq<SegmentView> = trace.segments(short);
    let after: Seq<SegmentView> = trace.segments(history);
    let point: GraphPoint = trace.point(history[i]);
    lemma_segments_shape(trace, short);
    if i < short.len() {
        law_points_marked(trace, short, i);
        let k: int = choose|k: int|
            0 <= k < before.len() && (#[trigger] before[k]).on == trace.assisted(short[i])
                && before[k].points.contains(trace.point(short[i]));
        let j: int = before[k].points.index_of(point);
        assert(after[k].on == before[k].on && after[k].points[j] == point);
    } else {
        let k: int = after.len() - 1;
        let j: int = after[k].points.len() - 1;
        assert(after[k].points[j] == point);
    }
}

/// The brake is drawn red, and orange at the moments at which ABS worked.
pub proof fn law_brake_color(history: Seq<Sample>, h: Single, glow: Rgba, i: int)
    requires
        0 <= i < history.len(),
    ensures
        exists|k: int|
            0 <= k < graph_lines(history, h, glow).len() && (#[trigger] graph_lines(
                history,
                h,
                glow,
            )[k]).color == if history[i].abs_vibration.exceeds(Single::of(ABS_SHOWN)) {
                Rgba::opaque(255, 160, 20)
            } else {
                Rgba::opaque(240, 55, 50)
            } && graph_lines(history, h, glow)[k].points.contains(Trace::Brake.point(history[i])),
{
    let lines: Seq<LineView> = graph_lines(history, h, glow);
    let throttle: Seq<SegmentView> = Trace::Throttle.segments(history);
    let brake: Seq<SegmentView> = Trace::Brake.segments(history);
    let width: Single = line_width(h);
    law_points_marked(Trace::Brake, history, i);
    let k: int = choose|k: int|
        0 <= k < brake.len() && (#[trigger] brake[k]).on == Trace::Brake.assisted(history[i])
            && brake[k].points.contains(Trace::Brake.point(history[i]));
    let first: int = (glow_lines(throttle, glow, width.product(Single::of_whole(4))).len()
        + throttle.len() + cut_lines(history, width.product(Single::of(CUT_WIDTH))).len()) as int;
    assert(lines[first + k] == segment_line(
        brake[k],
        Rgba::opaque(240, 55, 50),
        Rgba::opaque(255, 160, 20),
        width,
    ));
}

/// The throttle is drawn green, and yellow at the moments at which traction control
/// worked.
pub proof fn law_throttle_color(history: Seq<Sample>, h: Single, glow: Rgba, i: int)
    requires
        0 <= i < history.len(),
    ensures
        exists|k: int|
            0 <= k < graph_lines(history, h, glow).len() && (#[trigger] graph_lines(
                history,
                h,
                glow,
            )[k]).color == if history[i].tc_active {
                Rgba::opaque(255, 200, 40)
            } else {
                Rgba::opaque(100, 220, 70)
            } && graph_lines(history, h, glow)[k].points.contains(
                Trace::Throttle.point(history[i]),
            ),
{
    let lines: Seq<LineView> = graph_lines(history, h, glow);
    let throttle: Seq<SegmentView> = Trace::Throttle.segments(history);
    let width: Single = line_width(h);
    law_points_marked(Trace::Throttle, history, i);
    let k: int = choose|k: int|
        0 <= k < throttle.len() && (#[trigger] throttle[k]).on == Trace::Throttle.assisted(
            history[i],
        ) && throttle[k].points.contains(Trace::Throttle.point(history[i]));
    let first: int = glow_lines(throttle, glow, width.product(Single::of_whole(4))).len() as int;
    assert(lines[first + k] == segment_line(
        throttle[k],
        Rgba::opaque(100, 220, 70),
        Rgba::opaque(255, 200, 40),
        width,
    ));
}

/// A trace on which the assist never changes is a single line.
pub proof fn law_one_segment(trace: Trace, history: Seq<Sample>)
    requires
        history.len() > 0,
        forall|i: int, j: int|
            0 <= i < history.len() && 0 <= j < history.len() ==> trace.assisted(
                #[trigger] history[i],
            ) == trace.assisted(#[trigger] history[j]),
    ensures
        trace.segments(history).len() == 1,
        trace.segments(history)[0].points == trace.points(history),
        trace.segments(history)[0].on == trace.assisted(history[0]),
    decreases history.len(),
{
    let short: Seq<Sample> = history.drop_last();
    assert(trace.points(history) =~= trace.points(short).push(trace.point(history.last())));
    if short.len() > 0 {
        assert forall|i: int, j: int|
            0 <= i < short.len() && 0 <= j < short.len() implies trace.assisted(
            #[trigger] short[i],
        ) == trace.assisted(#[trigger] short[j]) by {
            assert(short[i] == history[i] && short[j] == history[j]);
        }
        law_one_segment(trace, short);
        assert(short[0] == history[0]);
        assert(history.last() == history[history.len() - 1]);
    } else {
        assert(trace.segments(short).len() == 0);
        assert(trace.segments(history)[0].points =~= trace.points(history));
    }
}

/// How alarming a gear's colour is.
pub open spec fn alarm(rpm_pct: Single) -> int {
    if rpm_pct.exceeds(Single::of(RPM_LIMIT)) {
        2
    } else if rpm_pct.exceeds(Single::of(RPM_HIGH)) {
        1
    } else {
        0
    }
}

/// A gear's colour goes from green over yellow to red as the engine turns faster, and
/// never back.
pub proof fn law_gear_color(gear: i8, slow: Single, fast: Single)
    requires
        fast.reaches(slow),
    ensures
        gear_color(Some(gear), slow) == alarm_color(alarm(slow)),
        gear_color(Some(gear), fast) == alarm_color(alarm(fast)),
        alarm(slow) <= alarm(fast),
{
}

/// The colour of an alarm.
pub open spec fn alarm_color(alarm: int) -> Rgba {
    if alarm == 0 {
        Rgba::opaque(50, 215, 50)
    } else if alarm == 1 {
        Rgba::opaque(255, 210, 30)
    } else {
        Rgba::opaque(255, 40, 40)
    }
}

/// The game's gears, counted from reverse, read `R`, `N`, `1`, `2` and so on.
pub proof fn law_gear_names(raw: i32)
    requires
        0 <= raw <= 128,
    ensures
        raw == 0 ==> gear_text(Some(crate::telemetry::low_byte(raw - 1))) == "R"@,
        raw == 1 ==> gear_text(Some(crate::telemetry::low_byte(raw - 1))) == "N"@,
        raw >= 2 ==> gear_text(Some(crate::telemetry::low_byte(raw - 1))) == crate::text::decimal(
            (raw - 1) as nat,
        ),
{
}

/// The grip appears when the corner has been hovered without a break for the time of the
/// delay, and leaving the corner starts the wait anew.
pub proof fn law_grip(start: u64, now: u64)
    ensures
        hover_start(hover_start(None, true, start), true, now) == Some(start),
        grip_active(Some(start), now) <==> now - start >= GRIP_DELAY,
        hover_start(Some(start), false, now) is None,
        !grip_active(None, now),
{
}

} // verus!

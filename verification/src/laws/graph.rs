//! The pedal graph.

use crate::color::Rgba;
use crate::overlay::Sample;
use crate::single::Single;
use crate::widgets::GraphPoint;
use crate::widgets::LineView;
use crate::widgets::SegmentView;
use crate::widgets::Trace;
use vstd::prelude::*;

verus! {

/// The colour of a line is opaque and has the three channels.
pub open spec fn is_colored(line: LineView, r: int, g: int, b: int) -> bool {
    line.color.r == r && line.color.g == g && line.color.b == b && line.color.a == 255
}

/// The points are those of the samples from `first` on, at the level of the throttle.
pub open spec fn follows_throttle(
    points: Seq<GraphPoint>,
    history: Seq<Sample>,
    first: int,
) -> bool {
    &&& 0 <= first && first + points.len() <= history.len()
    &&& forall|j: int|
        0 <= j < points.len() ==> (#[trigger] points[j]).t == history[first + j].t
            && points[j].level == history[first + j].throttle
}

/// The points are those of the samples from `first` on, at the level of the throttle that
/// the game applies.
pub open spec fn follows_throttle_game(
    points: Seq<GraphPoint>,
    history: Seq<Sample>,
    first: int,
) -> bool {
    &&& 0 <= first && first + points.len() <= history.len()
    &&& forall|j: int|
        0 <= j < points.len() ==> (#[trigger] points[j]).t == history[first + j].t
            && points[j].level == history[first + j].throttle_game
}

/// The points are those of the samples from `first` on, at the level of the brake.
pub open spec fn follows_brake(points: Seq<GraphPoint>, history: Seq<Sample>, first: int) -> bool {
    &&& 0 <= first && first + points.len() <= history.len()
    &&& forall|j: int|
        0 <= j < points.len() ==> (#[trigger] points[j]).t == history[first + j].t
            && points[j].level == history[first + j].brake
}

/// The points are those of the samples from `first` on, at the level of the clutch.
pub open spec fn follows_clutch(points: Seq<GraphPoint>, history: Seq<Sample>, first: int) -> bool {
    &&& 0 <= first && first + points.len() <= history.len()
    &&& forall|j: int|
        0 <= j < points.len() ==> (#[trigger] points[j]).t == history[first + j].t
            && points[j].level == history[first + j].clutch
}

/// ABS shows at a sample: its vibration is a number above 0.05.
pub open spec fn shows_abs(x: Sample) -> bool {
    0x3D4C_CCCD < x.abs_vibration.bits <= 0x7F80_0000
}

/// All points of a trace stand at the levels of what it traces, one for each sample.
pub proof fn law_trace_levels(history: Seq<Sample>)
    ensures
        Trace::Throttle.points(history).len() == history.len(),
        follows_throttle(Trace::Throttle.points(history), history, 0),
        Trace::ThrottleGame.points(history).len() == history.len(),
        follows_throttle_game(Trace::ThrottleGame.points(history), history, 0),
        Trace::Brake.points(history).len() == history.len(),
        follows_brake(Trace::Brake.points(history), history, 0),
        Trace::Clutch.points(history).len() == history.len(),
        follows_clutch(Trace::Clutch.points(history), history, 0),
{
}

/// Where a segment begins among the samples: the samples before it are those of the
/// segments before it, one of which it shares with the last of them.
pub open spec fn beginning(segments: Seq<SegmentView>, k: int) -> int
    decreases k,
{
    if k <= 0 {
        0
    } else {
        beginning(segments, k - 1) + segments[k - 1].points.len() - 1
    }
}

/// Segments that agree up to some place begin at the same samples up to there.
proof fn lemma_beginning(a: Seq<SegmentView>, b: Seq<SegmentView>, k: int)
    requires
        k <= a.len(),
        k <= b.len(),
        forall|i: int| 0 <= i < k ==> #[trigger] a[i].points.len() == b[i].points.len(),
    ensures
        beginning(a, k) == beginning(b, k),
    decreases k,
{
    if k > 0 {
        lemma_beginning(a, b, k - 1);
        assert(a[k - 1].points.len() == b[k - 1].points.len());
    }
}

/// A segment follows the samples from `a` on. All of them, but a first one that it shares
/// with another segment, are in its state.
#[verifier::opaque]
spec fn is_run(
    trace: Trace,
    segment: SegmentView,
    history: Seq<Sample>,
    a: int,
    shared: bool,
) -> bool {
    &&& segment.points.len() >= 1
    &&& shared ==> segment.points.len() >= 2
    &&& 0 <= a && a + segment.points.len() <= history.len()
    &&& forall|j: int|
        0 <= j < segment.points.len() ==> #[trigger] segment.points[j] == trace.point(
            history[a + j],
        )
    &&& forall|i: int|
        a < i < a + segment.points.len() ==> trace.assisted(#[trigger] history[i]) == segment.on
    &&& shared != (trace.assisted(history[a]) == segment.on)
}

/// Another sample does not change a segment that does not reach it.
proof fn lemma_run_stays(
    trace: Trace,
    segment: SegmentView,
    history: Seq<Sample>,
    a: int,
    shared: bool,
)
    requires
        history.len() > 0,
        is_run(trace, segment, history.drop_last(), a, shared),
    ensures
        is_run(trace, segment, history, a, shared),
        segment.points.len() >= 1,
        0 <= a && a + segment.points.len() < history.len(),
{
    reveal(is_run);
    let short: Seq<Sample> = history.drop_last();
    assert forall|j: int| 0 <= j < segment.points.len() implies #[trigger] segment.points[j]
        == trace.point(history[a + j]) by {
        assert(short[a + j] == history[a + j]);
    }
    assert forall|i: int| a < i < a + segment.points.len() implies trace.assisted(
        #[trigger] history[i],
    ) == segment.on by {
        assert(short[i] == history[i]);
    }
    assert(short[a] == history[a]);
}

/// A sample in the state of the last segment makes it longer.
proof fn lemma_run_grows(
    trace: Trace,
    segment: SegmentView,
    history: Seq<Sample>,
    a: int,
    shared: bool,
)
    requires
        history.len() > 0,
        is_run(trace, segment, history.drop_last(), a, shared),
        a + segment.points.len() == history.len() - 1,
        trace.assisted(history.last()) == segment.on,
    ensures
        is_run(
            trace,
            SegmentView { points: segment.points.push(trace.point(history.last())), ..segment },
            history,
            a,
            shared,
        ),
{
    reveal(is_run);
    let short: Seq<Sample> = history.drop_last();
    let n: int = history.len() - 1;
    let points: Seq<GraphPoint> = segment.points.push(trace.point(history.last()));
    assert(history[n] == history.last());
    assert forall|j: int| 0 <= j < points.len() implies #[trigger] points[j] == trace.point(
        history[a + j],
    ) by {
        if j < segment.points.len() {
            assert(points[j] == segment.points[j]);
            assert(short[a + j] == history[a + j]);
        }
    }
    assert forall|i: int| a < i < a + points.len() implies trace.assisted(#[trigger] history[i])
        == segment.on by {
        if i < n {
            assert(short[i] == history[i]);
        }
    }
    assert(short[a] == history[a]);
}

/// A sample in the other state begins a new segment, at the sample before it.
proof fn lemma_run_begins(
    trace: Trace,
    segment: SegmentView,
    history: Seq<Sample>,
    a: int,
    shared: bool,
)
    requires
        history.len() > 0,
        is_run(trace, segment, history.drop_last(), a, shared),
        a + segment.points.len() == history.len() - 1,
        trace.assisted(history.last()) != segment.on,
    ensures
        is_run(
            trace,
            SegmentView {
                points: seq![segment.points.last(), trace.point(history.last())],
                on: trace.assisted(history.last()),
            },
            history,
            history.len() - 2,
            true,
        ),
{
    reveal(is_run);
    let short: Seq<Sample> = history.drop_last();
    let n: int = history.len() - 1;
    let last: int = segment.points.len() - 1;
    assert(forall|i: int| 0 <= i < short.len() ==> #[trigger] short[i] == history[i]);
    assert(history[n] == history.last());
    assert(segment.points[last] == trace.point(short[a + last]));
    assert(trace.assisted(short[n - 1]) == segment.on);
}

/// The segments of a trace, sample by sample.
#[verifier::rlimit(30)]
proof fn lemma_runs(trace: Trace, history: Seq<Sample>)
    ensures
        ({
            let segments: Seq<SegmentView> = trace.segments(history);
            &&& history.len() > 0 ==> segments.len() > 0
            &&& history.len() == 0 ==> segments.len() == 0
            &&& segments.len() > 0 ==> beginning(segments, segments.len() as int) + 1
                == history.len()
            &&& forall|k: int|
                0 <= k < segments.len() ==> is_run(
                    trace,
                    #[trigger] segments[k],
                    history,
                    beginning(segments, k),
                    k > 0,
                )
        }),
    decreases history.len(),
{
    let segments: Seq<SegmentView> = trace.segments(history);
    if history.len() > 0 {
        let short: Seq<Sample> = history.drop_last();
        let before: Seq<SegmentView> = trace.segments(short);
        let point: GraphPoint = trace.point(history.last());
        let on: bool = trace.assisted(history.last());
        lemma_runs(trace, short);
        if before.len() == 0 {
            assert(segments[0].points =~= seq![point]);
            assert(is_run(trace, segments[0], history, 0, false)) by {
                reveal(is_run);
            }
            assert(beginning(segments, 1) == beginning(segments, 0) + 1 - 1);
        } else {
            let last: int = before.len() - 1;
            let a: int = beginning(before, last);
            assert(before[last] == before.last());
            assert(a + before[last].points.len() == short.len());
            assert forall|k: int| 0 <= k <= last implies beginning(segments, k) == beginning(
                before,
                k,
            ) by {
                lemma_beginning(segments, before, k);
            }
            assert forall|k: int| 0 <= k < last implies is_run(
                trace,
                #[trigger] segments[k],
                history,
                beginning(segments, k),
                k > 0,
            ) by {
                assert(segments[k] == before[k]);
                lemma_run_stays(trace, before[k], history, beginning(before, k), k > 0);
            }
            if before.last().on == on {
                lemma_run_grows(trace, before[last], history, a, last > 0);
                assert(segments[last] == SegmentView {
                    points: before[last].points.push(point),
                    ..before[last]
                });
                assert(beginning(segments, last + 1) == beginning(segments, last)
                    + segments[last].points.len() - 1);
            } else {
                lemma_beginning(segments, before, last + 1);
                lemma_run_stays(trace, before[last], history, a, last > 0);
                lemma_run_begins(trace, before[last], history, a, last > 0);
                assert(segments[last] == before[last]);
                assert(segments[last + 1] == SegmentView {
                    points: seq![before[last].points.last(), point],
                    on,
                });
                assert(beginning(segments, last + 2) == beginning(segments, last + 1) + 2 - 1);
            }
        }
    }
}

/// The throttle is drawn in segments: each follows the samples from its beginning on, at
/// the level of the throttle; the next one begins at the sample at which it ends. All its
/// samples but a shared first one have traction control on, or all have it off, as the
/// segment says, and with the neighbouring segment that changes. Together the segments
/// reach from the first sample to the last.
pub proof fn law_throttle_segments(history: Seq<Sample>, k: int)
    requires
        0 <= k < Trace::Throttle.segments(history).len(),
    ensures
        ({
            let segments: Seq<SegmentView> = Trace::Throttle.segments(history);
            let a: int = beginning(segments, k);
            &&& follows_throttle(segments[k].points, history, a)
            &&& segments[k].points.len() >= 1
            &&& k > 0 ==> segments[k].points.len() >= 2
            &&& forall|i: int|
                a < i < a + segments[k].points.len() ==> (#[trigger] history[i]).tc_active
                    == segments[k].on
            &&& k == 0 ==> a == 0 && history[0].tc_active == segments[0].on
            &&& k > 0 ==> history[a].tc_active != segments[k].on
        }),
{
    lemma_runs(Trace::Throttle, history);
    reveal(is_run);
}

/// The brake is drawn in segments in the same way, at the level of the brake, and they
/// change where ABS begins or ends to show.
pub proof fn law_brake_segments(history: Seq<Sample>, k: int)
    requires
        0 <= k < Trace::Brake.segments(history).len(),
    ensures
        ({
            let segments: Seq<SegmentView> = Trace::Brake.segments(history);
            let a: int = beginning(segments, k);
            &&& follows_brake(segments[k].points, history, a)
            &&& segments[k].points.len() >= 1
            &&& k > 0 ==> segments[k].points.len() >= 2
            &&& forall|i: int|
                a < i < a + segments[k].points.len() ==> shows_abs(#[trigger] history[i])
                    == segments[k].on
            &&& k == 0 ==> a == 0 && shows_abs(history[0]) == segments[0].on
            &&& k > 0 ==> shows_abs(history[a]) != segments[k].on
        }),
{
    let segments: Seq<SegmentView> = Trace::Brake.segments(history);
    let a: int = beginning(segments, k);
    lemma_runs(Trace::Brake, history);
    lemma_brake_run(segments[k], history, a, k > 0);
}

/// A run of the brake, in terms of its samples.
proof fn lemma_brake_run(segment: SegmentView, history: Seq<Sample>, a: int, shared: bool)
    requires
        is_run(Trace::Brake, segment, history, a, shared),
    ensures
        follows_brake(segment.points, history, a),
        segment.points.len() >= 1,
        shared ==> segment.points.len() >= 2,
        forall|i: int|
            a < i < a + segment.points.len() ==> shows_abs(#[trigger] history[i]) == segment.on,
        shared != (shows_abs(history[a]) == segment.on),
{
    reveal(is_run);
    lemma_shows_abs(history[a]);
    assert forall|i: int| a < i < a + segment.points.len() implies shows_abs(
        #[trigger] history[i],
    ) == segment.on by {
        lemma_shows_abs(history[i]);
        assert(Trace::Brake.assisted(history[i]) == segment.on);
    }
}

/// When ABS shows.
proof fn lemma_shows_abs(x: Sample)
    ensures
        Trace::Brake.assisted(x) == shows_abs(x),
{
    crate::laws::numbers::law_larger(x.abs_vibration, Single::of(0x3D4C_CCCD));
}

/// The segments of either trace reach from the first sample to the last.
pub proof fn law_segments_reach(history: Seq<Sample>)
    ensures
        history.len() == 0 ==> Trace::Throttle.segments(history).len() == 0
            && Trace::Brake.segments(history).len() == 0,
        history.len() > 0 ==> Trace::Throttle.segments(history).len() > 0
            && Trace::Brake.segments(history).len() > 0,
        history.len() > 0 ==> beginning(
            Trace::Throttle.segments(history),
            Trace::Throttle.segments(history).len() as int,
        ) == history.len() - 1,
        history.len() > 0 ==> beginning(
            Trace::Brake.segments(history),
            Trace::Brake.segments(history).len() as int,
        ) == history.len() - 1,
{
    lemma_runs(Trace::Throttle, history);
    lemma_runs(Trace::Brake, history);
}

/// How many segments are on.
pub open spec fn count_on(segments: Seq<SegmentView>) -> nat
    decreases segments.len(),
{
    if segments.len() == 0 {
        0
    } else if segments.last().on {
        count_on(segments.drop_last()) + 1
    } else {
        count_on(segments.drop_last())
    }
}

/// Traction control was on at some sample.
pub open spec fn had_tc(history: Seq<Sample>) -> bool {
    exists|i: int| 0 <= i < history.len() && (#[trigger] history[i]).tc_active
}

/// The lines of the graph from the back to the front: first a glow for each segment of the
/// throttle under traction control, then all segments of the throttle, green or yellow,
/// then the purple line if traction control was on at all, then all segments of the brake,
/// red or orange, and last the clutch in blue.
#[verifier::rlimit(30)]
pub proof fn law_lines(history: Seq<Sample>, h: Single, glow: Rgba)
    ensures
        ({
            let lines: Seq<LineView> = crate::widgets::graph_lines(history, h, glow);
            let throttle: Seq<SegmentView> = Trace::Throttle.segments(history);
            let brake: Seq<SegmentView> = Trace::Brake.segments(history);
            let first: int = count_on(throttle) as int;
            let cut: int = first + throttle.len();
            let red: int = cut + (if had_tc(history) {
                1int
            } else {
                0
            });
            let blue: int = red + brake.len();
            &&& lines.len() == blue + 1
            &&& forall|i: int| 0 <= i < first ==> (#[trigger] lines[i]).color == glow
            &&& forall|k: int|
                0 <= k < throttle.len() ==> (#[trigger] throttle[k]).points == lines[first
                    + k].points && (if throttle[k].on {
                    is_colored(lines[first + k], 255, 200, 40)
                } else {
                    is_colored(lines[first + k], 100, 220, 70)
                })
            &&& had_tc(history) ==> {
                &&& is_colored(lines[cut], 180, 100, 255)
                &&& lines[cut].points.len() == history.len()
                &&& follows_throttle_game(lines[cut].points, history, 0)
            }
            &&& forall|k: int|
                0 <= k < brake.len() ==> (#[trigger] brake[k]).points == lines[red + k].points
                    && (if brake[k].on {
                    is_colored(lines[red + k], 255, 160, 20)
                } else {
                    is_colored(lines[red + k], 240, 55, 50)
                })
            &&& is_colored(lines[blue], 60, 130, 255)
            &&& lines[blue].points.len() == history.len()
            &&& follows_clutch(lines[blue].points, history, 0)
        }),
{
    let throttle: Seq<SegmentView> = Trace::Throttle.segments(history);
    let width: Single = crate::widgets::line_width(h);
    lemma_glow(throttle, glow, width.product(Single::of_whole(4)));
    law_trace_levels(history);
    assert(had_tc(history) == crate::widgets::any_tc(history));
}

/// Wherever traction control was on, the graph has one purple line, with one point for each
/// sample, at the moment of the sample and at the level of the throttle that the game
/// applied then; wherever it never was on, no line is purple.
pub proof fn law_purple_line(history: Seq<Sample>, h: Single, glow: Rgba)
    requires
        glow.a != 255,
    ensures
        ({
            let lines: Seq<LineView> = crate::widgets::graph_lines(history, h, glow);
            &&& had_tc(history) ==> exists|k: int|
                0 <= k < lines.len() && is_colored(#[trigger] lines[k], 180, 100, 255)
                    && lines[k].points.len() == history.len() && forall|i: int|
                    0 <= i < history.len() ==> (#[trigger] lines[k].points[i]).t == history[i].t
                        && lines[k].points[i].level == history[i].throttle_game
            &&& !had_tc(history) ==> forall|k: int|
                0 <= k < lines.len() ==> !is_colored(#[trigger] lines[k], 180, 100, 255)
        }),
{
    let lines: Seq<LineView> = crate::widgets::graph_lines(history, h, glow);
    let throttle: Seq<SegmentView> = Trace::Throttle.segments(history);
    let brake: Seq<SegmentView> = Trace::Brake.segments(history);
    let first: int = count_on(throttle) as int;
    let cut: int = first + throttle.len();
    law_lines(history, h, glow);
    if had_tc(history) {
        assert(is_colored(lines[cut], 180, 100, 255));
    } else {
        assert forall|k: int| 0 <= k < lines.len() implies !is_colored(
            #[trigger] lines[k],
            180,
            100,
            255,
        ) by {
            if k < first {
                assert(lines[k].color == glow);
            } else if k < cut {
                let seg: SegmentView = throttle[k - first];
                assert(seg.points == lines[first + (k - first)].points);
            } else if k < cut + brake.len() {
                let seg: SegmentView = brake[k - cut];
                assert(seg.points == lines[cut + (k - cut)].points);
            }
        }
    }
}

/// There are as many glows as segments that are on, and they have those segments' points.
pub proof fn lemma_glow(segments: Seq<SegmentView>, glow: Rgba, width: Single)
    ensures
        ({
            let lines: Seq<LineView> = crate::widgets::glow_lines(segments, glow, width);
            &&& lines.len() == count_on(segments)
            &&& forall|i: int|
                0 <= i < lines.len() ==> (#[trigger] lines[i]).color == glow && lines[i].width
                    == width
            &&& forall|k: int|
                0 <= k < segments.len() && (#[trigger] segments[k]).on ==> {
                    let i: int = count_on(segments.take(k)) as int;
                    i < lines.len() && lines[i].points == segments[k].points
                }
        }),
    decreases segments.len(),
{
    if segments.len() > 0 {
        let short: Seq<SegmentView> = segments.drop_last();
        let last: int = segments.len() - 1;
        lemma_glow(short, glow, width);
        assert forall|k: int| 0 <= k < segments.len() && (#[trigger] segments[k]).on implies {
            let lines: Seq<LineView> = crate::widgets::glow_lines(segments, glow, width);
            let i: int = count_on(segments.take(k)) as int;
            i < lines.len() && lines[i].points == segments[k].points
        } by {
            if k < last {
                assert(segments[k] == short[k]);
                assert(segments.take(k) =~= short.take(k));
            } else {
                assert(segments.take(k) =~= short);
            }
        }
    }
}

/// Each segment of the throttle under traction control has a glow behind it, of the same
/// points, and the glows come in the order of the segments.
pub proof fn law_glow(history: Seq<Sample>, h: Single, glow: Rgba, k: int)
    requires
        0 <= k < Trace::Throttle.segments(history).len(),
        Trace::Throttle.segments(history)[k].on,
    ensures
        ({
            let i: int = count_on(Trace::Throttle.segments(history).take(k)) as int;
            let line: LineView = crate::widgets::graph_lines(history, h, glow)[i];
            &&& i < count_on(Trace::Throttle.segments(history))
            &&& line.points == Trace::Throttle.segments(history)[k].points
            &&& line.color == glow
        }),
{
    let throttle: Seq<SegmentView> = Trace::Throttle.segments(history);
    let width: Single = crate::widgets::line_width(h);
    lemma_glow(throttle, glow, width.product(Single::of_whole(4)));
}

} // verus!

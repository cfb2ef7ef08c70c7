//! What is planned and read is told as it is.

use crate::frame::Widget;
use crate::frame::WidgetView;
use crate::probe::Listed;
use crate::probe::Probe;
use crate::probe::Record;
use crate::probe::RecordView;
use crate::probe::TelemetryLoop;
use crate::single::Single;
use crate::widgets::GearFace;
use crate::widgets::GraphFace;
use crate::widgets::GraphLine;
use crate::widgets::Segment;
use crate::widgets::SpeedFace;
use vstd::prelude::*;

verus! {

/// The parts of a graph.
pub proof fn law_graph_shows_its_fields(face: GraphFace, line: GraphLine, segment: Segment, i: int)
    ensures
        face@.lines.len() == face.lines@.len(),
        0 <= i < face.lines@.len() ==> face@.lines[i] == face.lines@[i]@,
        face@.fill == face.fill,
        face@.outline == face.outline,
        face@.corner == face.corner,
        face@.margin == face.margin,
        line@.points == line.points@,
        line@.color == line.color,
        line@.width == line.width,
        segment@.points == segment.points@,
        segment@.on == segment.on,
{
}

/// The parts of a gear and of a speed.
pub proof fn law_texts_show_their_fields(gear: GearFace, speed: SpeedFace)
    ensures
        gear@.text == gear.text@,
        gear@.color == gear.color,
        gear@.font == gear.font,
        gear@.fill == gear.fill,
        gear@.outline == gear.outline,
        gear@.corner == gear.corner,
        speed@.text == speed.text@,
        speed@.color == speed.color,
        speed@.font == speed.font,
        speed@.lift == speed.lift,
        speed@.unit == speed.unit@,
        speed@.unit_color == speed.unit_color,
        speed@.unit_font == speed.unit_font,
        speed@.unit_lift == speed.unit_lift,
{
}

/// A widget is seen as what it is, as wide as it is.
pub proof fn law_widget_shows_its_face(widget: Widget)
    ensures
        widget matches Widget::Graph { width, graph } ==> widget@ == (WidgetView::Graph {
            width,
            graph: graph@,
        }),
        widget matches Widget::Gear { width, gear } ==> widget@ == (WidgetView::Gear {
            width,
            gear: gear@,
        }),
        widget matches Widget::Speed { width, speed } ==> widget@ == (WidgetView::Speed {
            width,
            speed: speed@,
        }),
        widget matches Widget::Wheel { width, wheel } ==> widget@ == (WidgetView::Wheel {
            width,
            wheel,
        }),
{
}

/// A mapping that was looked into, and its line in a list.
pub proof fn law_probe_shows_its_fields(probe: Probe, line: Listed)
    ensures
        probe@.name == probe.name@,
        probe@.has_data == probe.has_data,
        probe@.values == probe.values@,
        line@.name == line.name@,
        line@.has_data == line.has_data,
        line@.nonzero == line.nonzero,
        line@.total == line.total,
{
}

/// An entry of the log.
pub proof fn law_record_shows_its_fields(record: Record, i: int)
    ensures
        record matches Record::List(rows) ==> (record@ matches RecordView::List(lines)
            && lines.len() == rows@.len() && (0 <= i < rows@.len() ==> lines[i] == rows@[i]@)),
        record matches Record::Active { name, values } ==> record@ == (RecordView::Active {
            name: name@,
            values: values@,
        }),
        record matches Record::Snapshot { name, values } ==> record@ == (RecordView::Snapshot {
            name: name@,
            values: values@,
        }),
        record is Nothing ==> record@ is Nothing,
        record matches Record::Moved { brake, rows } ==> record@ == (RecordView::Moved {
            brake,
            rows: rows@,
        }),
{
}

/// A reading that may be missing.
pub proof fn law_reading_shows_its_values(values: Vec<(usize, Single)>)
    ensures
        crate::probe::reading(None) is None,
        crate::probe::reading(Some(values)) == Some(values@),
{
}

/// The loop.
pub proof fn law_loop_shows_its_fields(state: TelemetryLoop)
    ensures
        state@.tick_count == state.tick_count,
        state@.last_probe_time == state.last_probe_time,
        state.found_active_shm is None ==> state@.active is None,
        state.found_active_shm matches Some(name) ==> state@.active == Some(name@),
        state.probe_baseline is None ==> state@.baseline is None,
        state.probe_baseline matches Some(values) ==> state@.baseline == Some(values@),
        state@.highest_rpm == state.highest_rpm,
{
}

} // verus!

//! One frame of the overlay: what it reads, and what it then shows.

use crate::color::palette;
use crate::color::Palette;
use crate::input::read_inputs;
use crate::input::DeviceEvent;
use crate::input::Keys;
use crate::layout::lay_out;
use crate::layout::Layout;
use crate::overlay::Overlay;
use crate::overlay::OverlayApp;
use crate::overlay::ABS_HOLD;
use crate::single::Single;
use crate::telemetry::TelemetryData;
use crate::widgets::draw_speed;
use crate::widgets::draw_wheel;
use crate::widgets::plan_gear;
use crate::widgets::plan_graph;
use crate::widgets::GearFace;
use crate::widgets::GearView;
use crate::widgets::GraphFace;
use crate::widgets::GraphView;
use crate::widgets::SpeedFace;
use crate::widgets::SpeedView;
use crate::widgets::WheelFace;
use vstd::prelude::*;

verus! {

/// A widget, its width, and what it shows.
#[derive(Debug)]
pub enum Widget {
    Graph { width: Single, graph: GraphFace },
    Gear { width: Single, gear: GearFace },
    Speed { width: Single, speed: SpeedFace },
    Wheel { width: Single, wheel: WheelFace },
}

/// What a [`Widget`] shows.
#[verifier::ext_equal]
pub enum WidgetView {
    Graph { width: Single, graph: GraphView },
    Gear { width: Single, gear: GearView },
    Speed { width: Single, speed: SpeedView },
    Wheel { width: Single, wheel: WheelFace },
}

impl View for Widget {
    type V = WidgetView;

    open spec fn view(&self) -> WidgetView {
        match self {
            Widget::Graph { width, graph } => WidgetView::Graph { width: *width, graph: graph@ },
            Widget::Gear { width, gear } => WidgetView::Gear { width: *width, gear: gear@ },
            Widget::Speed { width, speed } => WidgetView::Speed { width: *width, speed: speed@ },
            Widget::Wheel { width, wheel } => WidgetView::Wheel { width: *width, wheel: *wheel },
        }
    }
}

impl Overlay {
    /// The widths of the widgets in a row of `available` points.
    pub open spec fn layout(self, h: Single, available: Single) -> Layout {
        crate::layout::row(h, available, self.show_gear, self.show_speed, self.show_wheel)
    }

    /// The graph, if it is shown.
    pub open spec fn graph_widget(
        self,
        h: Single,
        width: Single,
        colors: Palette,
    ) -> Seq<WidgetView> {
        if self.show_graph {
            seq![
                WidgetView::Graph {
                    width,
                    graph: crate::widgets::graph_face(self.history, h, colors),
                },
            ]
        } else {
            seq![]
        }
    }

    /// The gear, if it is shown.
    pub open spec fn gear_widget(
        self,
        h: Single,
        width: Single,
        colors: Palette,
    ) -> Seq<WidgetView> {
        if self.show_gear {
            seq![
                WidgetView::Gear {
                    width,
                    gear: crate::widgets::gear_face(self.gear, self.rpm_pct, h, colors),
                },
            ]
        } else {
            seq![]
        }
    }

    /// The speed, if it is shown.
    pub open spec fn speed_widget(self, h: Single, width: Single) -> Seq<WidgetView> {
        if self.show_speed {
            seq![
                WidgetView::Speed { width, speed: crate::widgets::speed_face(self.speed_kmh, h) },
            ]
        } else {
            seq![]
        }
    }

    /// The wheel, if it is shown. It turns with the steering axis of the device.
    pub open spec fn wheel_widget(self, h: Single, width: Single) -> Seq<WidgetView> {
        if self.show_wheel {
            seq![
                WidgetView::Wheel {
                    width,
                    wheel: crate::widgets::wheel_face(self.steering, h),
                },
            ]
        } else {
            seq![]
        }
    }

    /// The widgets of height `h` in a row of `available` points, from left to right.
    pub open spec fn widgets(
        self,
        h: Single,
        available: Single,
        colors: Palette,
    ) -> Seq<WidgetView> {
        let layout = self.layout(h, available);
        self.graph_widget(h, layout.graph, colors) + self.gear_widget(h, layout.gear, colors)
            + self.speed_widget(h, layout.speed) + self.wheel_widget(h, layout.wheel)
    }

    /// The overlay after a frame at `now` has read everything that there is to read: first
    /// the inputs, then a sample of them, then the packets of the game.
    pub open spec fn after_frame(
        self,
        keys: Keys,
        events: Seq<DeviceEvent>,
        packets: Seq<TelemetryData>,
        now: u64,
    ) -> Overlay {
        self.with_inputs(keys, events).sampled(now).polled(packets, now)
    }
}

impl OverlayApp {
    /// Reads everything that there is to read in a frame.
    pub fn update(
        &mut self,
        keys: &Keys,
        events: &Vec<DeviceEvent>,
        packets: Vec<TelemetryData>,
        now: u64,
    )
        requires
            now <= u64::MAX - ABS_HOLD,
        ensures
            final(self)@ == old(self)@.after_frame(*keys, events@, packets@, now),
            old(self)@.inv() ==> final(self)@.inv(),
    {
        read_inputs(self, keys, events);
        self.update_history(now);
        self.poll_telemetry(packets, now);
    }

    /// The widths of the widgets in a row of `available` points.
    pub fn layout(&self, h: Single, available: Single) -> (r: Layout)
        ensures
            r == self@.layout(h, available),
    {
        lay_out(h, available, self.show_gear, self.show_speed, self.show_wheel)
    }

    /// The widgets of height `h` in a row of `available` points, from left to right, in the
    /// given colours.
    pub fn plan_widgets(&self, h: Single, available: Single, colors: &Palette) -> (widgets: Vec<
        Widget,
    >)
        ensures
            widgets@.map_values(|w: Widget| w@) == self@.widgets(h, available, *colors),
    {
        let layout: Layout = self.layout(h, available);
        let mut widgets: Vec<Widget> = Vec::new();
        if self.show_graph {
            let graph: GraphFace = plan_graph(&self.history, h, colors);
            widgets.push(Widget::Graph { width: layout.graph, graph });
        }
        if self.show_gear {
            let gear: GearFace = plan_gear(self.gear, self.rpm_pct, h, colors);
            widgets.push(Widget::Gear { width: layout.gear, gear });
        }
        if self.show_speed {
            let speed: SpeedFace = draw_speed(self.speed_kmh, h);
            widgets.push(Widget::Speed { width: layout.speed, speed });
        }
        if self.show_wheel {
            let wheel: WheelFace = draw_wheel(self.steering, h);
            widgets.push(Widget::Wheel { width: layout.wheel, wheel });
        }
        assert(widgets@.map_values(|w: Widget| w@) =~= self@.widgets(h, available, *colors));
        widgets
    }

    /// The widgets of height `h` in a row of `available` points, from left to right.
    pub fn draw(&self, h: Single, available: Single) -> (widgets: Vec<Widget>)
        ensures
            exists|colors: Palette|
                colors.genuine() && widgets@.map_values(|w: Widget| w@)
                    == #[trigger] self@.widgets(h, available, colors),
    {
        let colors: Palette = palette();
        self.plan_widgets(h, available, &colors)
    }
}

} // verus!

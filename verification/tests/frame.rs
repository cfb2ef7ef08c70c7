use racing_pedal_overlay::color::palette;
use racing_pedal_overlay::color::Rgba;
use racing_pedal_overlay::frame::Widget;
use racing_pedal_overlay::input::Axis;
use racing_pedal_overlay::input::DeviceEvent;
use racing_pedal_overlay::input::Keys;
use racing_pedal_overlay::overlay::OverlayApp;
use racing_pedal_overlay::overlay::SECOND;
use racing_pedal_overlay::single::Single;
use racing_pedal_overlay::telemetry::AcPhysicsSnapshot;
use racing_pedal_overlay::telemetry::TelemetryData;
use racing_pedal_overlay::widgets::draw_wheel;

fn single(x: f32) -> Single {
    Single { bits: x.to_bits() }
}

fn no_keys() -> Keys {
    Keys {
        debug: false,
        shrink: false,
        grow: false,
        throttle: false,
        brake: false,
        clutch: false,
        left: false,
        right: false,
    }
}

fn packet() -> TelemetryData {
    let snap = AcPhysicsSnapshot {
        gas: single(0.4),
        brake: single(0.0),
        clutch: single(0.0),
        steer_angle: single(-0.5),
        speed_kmh: single(99.5),
        gear: 3,
        rpms: 5000,
        abs_active: false,
        tc_active: true,
        abs_vibration: single(0.0),
    };
    TelemetryData::from_physics(&snap, Some(5000), Vec::new())
}

#[test]
fn frame_samples_before_it_polls() {
    let mut app = OverlayApp::new();
    let event = DeviceEvent::AxisChanged {
        axis: Axis::LeftZ,
        value: single(0.5),
        line: String::new(),
    };
    app.update(&no_keys(), &vec![event], vec![packet()], SECOND);
    // The sample has the new throttle, but nothing of the packet that came with it.
    assert_eq!(app.history[0].throttle, single(0.75));
    assert_eq!(app.history[0].throttle_game, single(0.75));
    assert!(!app.history[0].tc_active);
    assert_eq!(app.gear, Some(2));
    app.update(&no_keys(), &Vec::new(), Vec::new(), 2 * SECOND);
    assert_eq!(app.history[1].throttle_game, single(0.4));
    assert!(app.history[1].tc_active);
}

#[test]
fn widgets_stand_from_left_to_right() {
    let app = OverlayApp::new();
    let widgets = app.draw(single(56.0), single(500.0));
    assert_eq!(widgets.len(), 4);
    assert!(matches!(widgets[0], Widget::Graph { .. }));
    assert!(matches!(widgets[1], Widget::Gear { .. }));
    assert!(matches!(widgets[2], Widget::Speed { .. }));
    assert!(matches!(widgets[3], Widget::Wheel { .. }));
}

#[test]
fn hidden_widgets_are_left_out() {
    let mut app = OverlayApp::new();
    app.show_graph = false;
    app.show_speed = false;
    let widgets = app.draw(single(56.0), single(500.0));
    assert_eq!(widgets.len(), 2);
    assert!(matches!(widgets[0], Widget::Gear { .. }));
    assert!(matches!(widgets[1], Widget::Wheel { .. }));
    app.show_gear = false;
    app.show_wheel = false;
    assert!(app.draw(single(56.0), single(500.0)).is_empty());
}

#[test]
fn without_a_game_the_widgets_are_gray() {
    let mut app = OverlayApp::new();
    app.steering = single(0.25);
    for widget in app.draw(single(56.0), single(500.0)) {
        match widget {
            Widget::Gear { gear, .. } => {
                assert_eq!(gear.text, "N");
                assert_eq!(gear.color, Rgba { r: 70, g: 70, b: 70, a: 255 });
            }
            Widget::Speed { speed, .. } => {
                assert_eq!(speed.text, "0");
                assert_eq!(speed.color, Rgba { r: 55, g: 55, b: 55, a: 255 });
            }
            Widget::Wheel { wheel, .. } => {
                assert_eq!(wheel, draw_wheel(single(0.25), single(56.0)));
            }
            Widget::Graph { graph, .. } => assert_eq!(graph.lines.len(), 1),
        }
    }
}

#[test]
fn game_shows_in_the_widgets() {
    let mut app = OverlayApp::new();
    app.steering = single(0.25);
    app.poll_telemetry(vec![packet()], SECOND);
    assert_eq!(app.steering_game, Some(single(-0.5)));
    let colors = palette();
    for widget in app.plan_widgets(single(56.0), single(500.0), &colors) {
        match widget {
            Widget::Gear { gear, .. } => {
                assert_eq!(gear.text, "2");
                assert_eq!(gear.color, Rgba { r: 255, g: 40, b: 40, a: 255 });
                assert_eq!(gear.fill, colors.gear_fill);
            }
            Widget::Speed { speed, .. } => {
                assert_eq!(speed.text, "100");
                assert_eq!(speed.color, Rgba { r: 255, g: 255, b: 255, a: 255 });
            }
            // The wheel turns with the device, not with the game.
            Widget::Wheel { wheel, .. } => {
                assert_eq!(wheel, draw_wheel(single(0.25), single(56.0)));
            }
            Widget::Graph { graph, .. } => assert_eq!(graph.fill, colors.graph_fill),
        }
    }
}

#[test]
fn widths_come_from_the_layout() {
    let app = OverlayApp::new();
    let (h, available) = (single(80.0), single(640.0));
    let layout = app.layout(h, available);
    let mut widths = Vec::new();
    for widget in app.draw(h, available) {
        widths.push(match widget {
            Widget::Graph { width, .. } => width,
            Widget::Gear { width, .. } => width,
            Widget::Speed { width, .. } => width,
            Widget::Wheel { width, .. } => width,
        });
    }
    assert_eq!(widths, vec![layout.graph, layout.gear, layout.speed, layout.wheel]);
}

#[test]
fn engine_shifts_the_color_of_the_gear() {
    let mut app = OverlayApp::new();
    let mut color = |rpm: i32, max_rpm: Option<i32>| {
        app.poll_telemetry(vec![TelemetryData { rpm: Some(rpm), max_rpm, ..packet() }], SECOND);
        match app.draw(single(56.0), single(500.0)).remove(1) {
            Widget::Gear { gear, .. } => (gear.color.r, gear.color.g, gear.color.b),
            other => panic!("{other:?}"),
        }
    };
    assert_eq!(color(1000, Some(8000)), (50, 215, 50));
    assert_eq!(color(4000, Some(8000)), (50, 215, 50));
    assert_eq!(color(6000, Some(8000)), (255, 210, 30));
    assert_eq!(color(7600, Some(8000)), (255, 40, 40));
    assert_eq!(color(8000, Some(8000)), (255, 40, 40));
    assert_eq!(color(8000, None), (50, 215, 50));
}

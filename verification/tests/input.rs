use racing_pedal_overlay::input::axis_to_pedal;
use racing_pedal_overlay::input::axis_to_pedal_inv;
use racing_pedal_overlay::input::read_inputs;
use racing_pedal_overlay::input::Axis;
use racing_pedal_overlay::input::DeviceEvent;
use racing_pedal_overlay::input::Keys;
use racing_pedal_overlay::overlay::OverlayApp;
use racing_pedal_overlay::single::Single;

fn single(x: f32) -> Single {
    Single { bits: x.to_bits() }
}

fn no_keys() -> Keys {
    Keys {
        debug: false,
        shrink: false,
        grow: false,
        throttle: false,
        brake: false,
        clutch: false,
        left: false,
        right: false,
    }
}

fn moved(axis: Axis, value: f32) -> DeviceEvent {
    DeviceEvent::AxisChanged { axis, value: single(value), line: format!("{axis:?} {value:+.3}") }
}

const VALUES: [f32; 16] = [
    -2.0,
    -1.0000001,
    -1.0,
    -0.99999994,
    -0.5,
    -0.3333,
    -1.0e-9,
    0.0,
    1.0e-9,
    0.1,
    0.5,
    0.75,
    0.99999994,
    1.0,
    1.0000001,
    37.0,
];

#[test]
fn pedals_agree_with_the_hardware() {
    for v in VALUES {
        assert_eq!(axis_to_pedal(single(v)).bits, ((v + 1.0) * 0.5).clamp(0.0, 1.0).to_bits());
        assert_eq!(axis_to_pedal_inv(single(v)).bits, ((1.0 - v) * 0.5).clamp(0.0, 1.0).to_bits());
    }
    for v in [f32::INFINITY, f32::NEG_INFINITY] {
        assert_eq!(axis_to_pedal(single(v)).bits, ((v + 1.0) * 0.5).clamp(0.0, 1.0).to_bits());
        assert_eq!(axis_to_pedal_inv(single(v)).bits, ((1.0 - v) * 0.5).clamp(0.0, 1.0).to_bits());
    }
}

#[test]
fn pedals_are_between_zero_and_one() {
    for v in VALUES {
        for pedal in [axis_to_pedal(single(v)), axis_to_pedal_inv(single(v))] {
            assert!(pedal.ge(single(0.0)) && single(1.0).ge(pedal));
        }
    }
    assert!(axis_to_pedal(single(f32::NAN)).is_nan());
    assert!(axis_to_pedal_inv(single(f32::NAN)).is_nan());
}

#[test]
fn pedals_mirror_each_other() {
    for v in VALUES {
        assert_eq!(axis_to_pedal_inv(single(v)), axis_to_pedal(single(-v)));
    }
}

#[test]
fn pedals_never_read_less_when_pressed_further() {
    for pair in VALUES.windows(2) {
        assert!(axis_to_pedal(single(pair[1])).ge(axis_to_pedal(single(pair[0]))));
        assert!(axis_to_pedal_inv(single(pair[0])).ge(axis_to_pedal_inv(single(pair[1]))));
    }
}

#[test]
fn pedals_at_their_ends() {
    assert_eq!(axis_to_pedal(single(-1.0)), single(0.0));
    assert_eq!(axis_to_pedal(single(1.0)), single(1.0));
    assert_eq!(axis_to_pedal_inv(single(1.0)), single(0.0));
    assert_eq!(axis_to_pedal_inv(single(-1.0)), single(1.0));
    assert_eq!(axis_to_pedal(single(0.0)), single(0.5));
}

#[test]
fn axes_move_what_they_stand_for() {
    let mut app = OverlayApp::new();
    let events = vec![
        moved(Axis::LeftZ, 0.5),
        moved(Axis::RightZ, 0.5),
        moved(Axis::RightStickX, -0.5),
        moved(Axis::LeftStickX, 0.125),
    ];
    read_inputs(&mut app, &no_keys(), &events);
    assert_eq!(app.throttle, single(0.75));
    // The brake is inverted at first.
    assert_eq!(app.brake, single(0.25));
    assert_eq!(app.clutch, single(0.25));
    assert_eq!(app.steering, single(0.125));
    let events = vec![moved(Axis::LeftStickY, -1.0), moved(Axis::RightStickY, -1.0)];
    read_inputs(&mut app, &no_keys(), &events);
    assert_eq!(app.throttle, single(0.0));
    assert_eq!(app.brake, single(1.0));
    for axis in [Axis::DPadX, Axis::DPadY, Axis::Unknown] {
        read_inputs(&mut app, &no_keys(), &vec![moved(axis, -0.25)]);
        assert_eq!(app.steering, single(-0.25));
        read_inputs(&mut app, &no_keys(), &vec![DeviceEvent::Other]);
        assert_eq!(app.steering, single(-0.25));
        app.steering = single(0.0);
    }
}

#[test]
fn inversion_turns_a_pedal_round() {
    let mut app = OverlayApp::new();
    app.invert_throttle = true;
    app.invert_brake = false;
    app.invert_clutch = true;
    let events = vec![
        moved(Axis::LeftZ, 0.5),
        moved(Axis::RightZ, 0.5),
        moved(Axis::RightStickX, 0.5),
    ];
    read_inputs(&mut app, &no_keys(), &events);
    assert_eq!(app.throttle, single(0.25));
    assert_eq!(app.brake, single(0.75));
    assert_eq!(app.clutch, single(0.25));
}

#[test]
fn last_report_counts() {
    let mut app = OverlayApp::new();
    let events = vec![moved(Axis::LeftZ, 1.0), moved(Axis::LeftZ, 0.0), moved(Axis::LeftZ, -0.5)];
    read_inputs(&mut app, &no_keys(), &events);
    assert_eq!(app.throttle, single(0.25));
}

#[test]
fn keys_press_pedals_fully() {
    let mut app = OverlayApp::new();
    let keys = Keys { throttle: true, brake: true, clutch: true, ..no_keys() };
    read_inputs(&mut app, &keys, &vec![moved(Axis::LeftZ, 0.0)]);
    assert_eq!((app.throttle, app.brake, app.clutch), (single(1.0), single(1.0), single(1.0)));
    // A pedal that reports no number gives way to the key, pressed or not.
    read_inputs(&mut app, &no_keys(), &vec![moved(Axis::LeftZ, f32::NAN)]);
    assert_eq!(app.throttle, single(0.0));
}

#[test]
fn keys_turn_the_wheel() {
    let mut app = OverlayApp::new();
    read_inputs(&mut app, &Keys { right: true, ..no_keys() }, &Vec::new());
    assert_eq!(app.steering, single(1.0));
    read_inputs(&mut app, &Keys { left: true, right: true, ..no_keys() }, &Vec::new());
    assert_eq!(app.steering, single(-1.0));
    read_inputs(&mut app, &no_keys(), &Vec::new());
    assert_eq!(app.steering, single(-1.0));
}

#[test]
fn window_keys_stay_between_their_bounds() {
    let mut app = OverlayApp::new();
    assert_eq!(app.history_seconds, 8);
    for _ in 0..40 {
        read_inputs(&mut app, &Keys { grow: true, ..no_keys() }, &Vec::new());
    }
    assert_eq!(app.history_seconds, 30);
    read_inputs(&mut app, &Keys { shrink: true, ..no_keys() }, &Vec::new());
    assert_eq!(app.history_seconds, 29);
    read_inputs(&mut app, &Keys { grow: true, ..no_keys() }, &Vec::new());
    assert_eq!(app.history_seconds, 30);
    for _ in 0..40 {
        read_inputs(&mut app, &Keys { shrink: true, ..no_keys() }, &Vec::new());
    }
    assert_eq!(app.history_seconds, 2);
    read_inputs(&mut app, &Keys { shrink: true, grow: true, ..no_keys() }, &Vec::new());
    assert_eq!(app.history_seconds, 3);
}

#[test]
fn debug_key_toggles() {
    let mut app = OverlayApp::new();
    let keys = Keys { debug: true, ..no_keys() };
    read_inputs(&mut app, &keys, &Vec::new());
    assert!(app.debug_mode);
    read_inputs(&mut app, &keys, &Vec::new());
    assert!(!app.debug_mode);
}

#[test]
fn debug_log_keeps_the_newest_lines() {
    let mut app = OverlayApp::new();
    read_inputs(&mut app, &no_keys(), &vec![moved(Axis::LeftZ, 0.0)]);
    assert!(app.debug_log.is_empty());
    let events: Vec<DeviceEvent> = (0..15).map(|i| moved(Axis::LeftZ, i as f32)).collect();
    read_inputs(&mut app, &Keys { debug: true, ..no_keys() }, &events);
    let lines: Vec<String> = app.debug_log.iter().cloned().collect();
    let expected: Vec<String> = (3..15).map(|i| format!("LeftZ {:+.3}", i as f32)).collect();
    assert_eq!(lines, expected);
}

#[test]
fn nothing_pressed_and_nothing_reported_changes_nothing() {
    let mut app = OverlayApp::new();
    read_inputs(&mut app, &no_keys(), &vec![moved(Axis::LeftZ, 0.5), moved(Axis::DPadX, 0.5)]);
    let before = format!("{app:?}");
    read_inputs(&mut app, &no_keys(), &Vec::new());
    assert_eq!(format!("{app:?}"), before);
}

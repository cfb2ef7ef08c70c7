use racing_pedal_overlay::overlay::OverlayApp;
use racing_pedal_overlay::overlay::ABS_HOLD;
use racing_pedal_overlay::overlay::SECOND;
use racing_pedal_overlay::overlay::SILENCE;
use racing_pedal_overlay::single::Single;
use racing_pedal_overlay::telemetry::TelemetryData;
use std::time::Duration;

fn single(x: f32) -> Single {
    Single { bits: x.to_bits() }
}

fn packet(gear: i8) -> TelemetryData {
    TelemetryData {
        sim_name: format!("game {gear}"),
        gear: Some(gear),
        speed_kmh: Some(single(120.0)),
        rpm: Some(6000),
        max_rpm: Some(8000),
        abs_active: false,
        tc_active: true,
        abs_vibration: single(0.2),
        steer_angle: Some(single(0.3)),
        pedals_game: Some((single(0.6), single(0.1), single(0.0))),
        pedals_raw: Some((single(0.7), single(0.1), single(0.0))),
        abs_source: "shm",
        probe_values: vec![(252, single(0.2))],
    }
}

fn abs_packet(active: bool) -> TelemetryData {
    TelemetryData { abs_active: active, ..packet(3) }
}

#[test]
fn overlay_starts_empty() {
    let app = OverlayApp::new();
    assert!(app.history.is_empty());
    assert_eq!(app.gear, None);
    assert_eq!(app.speed_kmh, None);
    assert_eq!(app.abs_source, "none");
    assert_eq!(app.sim_name, "");
    assert!(!app.invert_throttle && app.invert_brake && !app.invert_clutch);
    assert!(app.show_graph && app.show_gear && app.show_speed && app.show_wheel);
    assert!(!app.debug_mode);
    assert_eq!(app.history_seconds, 8);
    assert_eq!(app.last_telemetry, None);
}

#[test]
fn samples_are_a_sixtieth_of_a_second_apart() {
    let mut app = OverlayApp::new();
    app.update_history(16_666_666);
    assert_eq!(app.history.len(), 0);
    app.update_history(16_666_667);
    assert_eq!(app.history.len(), 1);
    app.update_history(16_666_667 + 16_666_666);
    assert_eq!(app.history.len(), 1);
    assert_eq!(app.last_sample_time, 16_666_667);
    app.update_history(16_666_667 + 16_666_667);
    assert_eq!(app.history.len(), 2);
    // That is where 1/60 lies in double precision, too.
    for (passed, due) in [(16_666_666u64, false), (16_666_667, true)] {
        assert_eq!(passed as f64 / 1.0e9 >= 1.0 / 60.0, due);
    }
}

#[test]
fn sample_records_the_pedals() {
    let mut app = OverlayApp::new();
    app.throttle = single(0.5);
    app.brake = single(0.25);
    app.clutch = single(0.75);
    app.update_history(SECOND);
    let sample = app.history[0];
    assert_eq!(sample.t, SECOND);
    assert_eq!((sample.throttle, sample.brake, sample.clutch), (single(0.5), single(0.25), single(0.75)));
    // Without a game the throttle stands in for what the game applies.
    assert_eq!(sample.throttle_game, single(0.5));
    assert!(!sample.tc_active);
    app.poll_telemetry(vec![packet(3)], SECOND);
    app.update_history(2 * SECOND);
    let sample = app.history[1];
    assert_eq!(sample.throttle_game, single(0.6));
    assert_eq!(sample.abs_vibration, single(0.2));
    assert!(sample.tc_active);
}

#[test]
fn history_holds_the_window() {
    let mut app = OverlayApp::new();
    for i in 1..=20 {
        app.update_history(i * SECOND);
    }
    // A sample leaves once it is older than the window, not when it is as old.
    let times: Vec<u64> = app.history.iter().map(|s| s.t / SECOND).collect();
    assert_eq!(times, vec![12, 13, 14, 15, 16, 17, 18, 19, 20]);
    app.history_seconds = 2;
    app.update_history(21 * SECOND);
    let times: Vec<u64> = app.history.iter().map(|s| s.t / SECOND).collect();
    assert_eq!(times, vec![19, 20, 21]);
    app.update_history(24 * SECOND + 1);
    let times: Vec<u64> = app.history.iter().map(|s| s.t).collect();
    assert_eq!(times, vec![24 * SECOND + 1]);
}

#[test]
fn history_is_bounded() {
    let mut app = OverlayApp::new();
    app.history_seconds = 30;
    for i in 1..=4000u64 {
        app.update_history(i * 16_666_667);
    }
    assert_eq!(app.history.len(), 1800);
}

#[test]
fn packet_is_taken_in() {
    let mut app = OverlayApp::new();
    app.poll_telemetry(vec![packet(3)], 5);
    assert_eq!(app.gear, Some(3));
    assert_eq!(app.speed_kmh, Some(single(120.0)));
    assert_eq!(app.rpm_pct, single(0.75));
    assert!(!app.abs_active && !app.abs_held && app.tc_active);
    assert_eq!(app.abs_vibration, single(0.2));
    assert_eq!(app.throttle_game, single(0.6));
    assert_eq!(app.steering_game, Some(single(0.3)));
    assert_eq!(app.abs_source, "shm");
    assert_eq!(app.pedals_game_dbg, Some((single(0.6), single(0.1), single(0.0))));
    assert_eq!(app.pedals_raw_dbg, Some((single(0.7), single(0.1), single(0.0))));
    assert_eq!(app.sim_name, "game 3");
    assert_eq!(app.last_telemetry, Some(5));
    assert_eq!(app.probe_values, vec![(252, single(0.2))]);
}

#[test]
fn newest_packet_counts() {
    let mut app = OverlayApp::new();
    app.poll_telemetry(vec![packet(1), packet(2), packet(5)], 9);
    assert_eq!(app.gear, Some(5));
    assert_eq!(app.sim_name, "game 5");
}

#[test]
fn empty_probe_values_leave_the_old_ones() {
    let mut app = OverlayApp::new();
    app.poll_telemetry(vec![packet(1)], 1);
    app.poll_telemetry(vec![TelemetryData { probe_values: Vec::new(), ..packet(2) }], 2);
    assert_eq!(app.probe_values, vec![(252, single(0.2))]);
    assert_eq!(app.gear, Some(2));
}

#[test]
fn throttle_stands_in_for_missing_pedals() {
    let mut app = OverlayApp::new();
    app.throttle = single(0.9);
    app.poll_telemetry(vec![TelemetryData { pedals_game: None, ..packet(1) }], 1);
    assert_eq!(app.throttle_game, single(0.9));
    assert_eq!(app.pedals_game_dbg, None);
}

#[test]
fn engine_share_is_clamped() {
    let share = |rpm: Option<i32>, max_rpm: Option<i32>| {
        let mut app = OverlayApp::new();
        app.poll_telemetry(vec![TelemetryData { rpm, max_rpm, ..packet(1) }], 1);
        app.rpm_pct
    };
    assert_eq!(share(Some(7200), Some(8000)), single(0.9));
    assert_eq!(share(Some(1000), Some(3000)).bits, ((1000.0f64 / 3000.0) as f32).to_bits());
    assert_eq!(share(Some(9000), Some(8000)), single(1.0));
    assert_eq!(share(Some(545259552), Some(1090519039)), single(0.5));
    assert_eq!(share(Some(-5), Some(8000)), single(0.0));
    assert_eq!(share(Some(0), Some(8000)), single(0.0));
    assert_eq!(share(Some(5000), Some(0)), single(0.0));
    assert_eq!(share(Some(5000), Some(-1)), single(0.0));
    assert_eq!(share(Some(5000), None), single(0.0));
    assert_eq!(share(None, Some(8000)), single(0.0));
    let mut last = single(0.0);
    for rpm in 0..9000 {
        let next = share(Some(rpm), Some(8500));
        assert!(next.ge(last) && single(1.0).ge(next));
        last = next;
    }
}

#[test]
fn abs_is_held_for_a_while() {
    let mut app = OverlayApp::new();
    app.poll_telemetry(vec![abs_packet(true)], SECOND);
    assert!(app.abs_active && app.abs_held);
    assert_eq!(app.abs_hold_until, Some(SECOND + 300_000_000));
    app.poll_telemetry(vec![abs_packet(false)], SECOND + ABS_HOLD - 1);
    assert!(!app.abs_active && app.abs_held);
    app.poll_telemetry(vec![abs_packet(false)], SECOND + ABS_HOLD);
    assert!(!app.abs_held);
    app.poll_telemetry(vec![abs_packet(false)], SECOND);
    assert!(!app.abs_held);
}

#[test]
fn abs_again_prolongs_the_hold() {
    let mut app = OverlayApp::new();
    app.poll_telemetry(vec![abs_packet(true)], SECOND);
    app.poll_telemetry(vec![abs_packet(true)], SECOND + ABS_HOLD / 2);
    app.poll_telemetry(vec![abs_packet(false)], SECOND + ABS_HOLD);
    assert!(app.abs_held);
}

#[test]
fn silence_is_two_seconds_in_single_precision() {
    assert!(!(Duration::from_nanos(SILENCE).as_secs_f32() > 2.0));
    assert!(Duration::from_nanos(SILENCE + 1).as_secs_f32() > 2.0);
    for nanos in (0..400).map(|i| 1_999_999_900 + i) {
        assert_eq!(Duration::from_nanos(nanos).as_secs_f32() > 2.0, nanos > SILENCE);
    }
}

#[test]
fn silent_game_is_forgotten() {
    let mut app = OverlayApp::new();
    app.throttle = single(0.5);
    app.update_history(SECOND);
    app.poll_telemetry(vec![abs_packet(true)], SECOND);
    app.poll_telemetry(Vec::new(), SECOND + SILENCE);
    assert_eq!(app.gear, Some(3));
    app.poll_telemetry(Vec::new(), SECOND + SILENCE + 1);
    assert_eq!(app.gear, None);
    assert_eq!(app.speed_kmh, None);
    assert_eq!(app.rpm_pct, single(0.0));
    assert!(!app.abs_active && !app.abs_held && !app.tc_active);
    assert_eq!(app.abs_hold_until, None);
    assert_eq!(app.abs_vibration, single(0.0));
    assert_eq!(app.throttle_game, single(0.0));
    assert_eq!(app.steering_game, None);
    assert_eq!(app.abs_source, "none");
    assert_eq!(app.sim_name, "");
    assert_eq!(app.last_telemetry, None);
    assert!(app.probe_values.is_empty());
    // What the driver did, and the game's pedals for debugging, stay.
    assert_eq!(app.throttle, single(0.5));
    assert_eq!(app.history.len(), 1);
    assert_eq!(app.pedals_game_dbg, Some((single(0.6), single(0.1), single(0.0))));
    app.poll_telemetry(Vec::new(), 100 * SECOND);
    assert_eq!(app.gear, None);
    app.poll_telemetry(vec![packet(2)], 101 * SECOND);
    assert_eq!(app.gear, Some(2));
}

#[test]
fn no_packet_changes_nothing() {
    let mut app = OverlayApp::new();
    app.poll_telemetry(vec![packet(4)], SECOND);
    let before = format!("{app:?}");
    app.poll_telemetry(Vec::new(), 2 * SECOND);
    assert_eq!(format!("{app:?}"), before);
}

use racing_pedal_overlay::probe::compare;
use racing_pedal_overlay::probe::keep_assists;
use racing_pedal_overlay::probe::probe_all_shm;
use racing_pedal_overlay::probe::probe_shm_by_name;
use racing_pedal_overlay::probe::Changed;
use racing_pedal_overlay::probe::Probe;
use racing_pedal_overlay::probe::Record;
use racing_pedal_overlay::probe::TelemetryLoop;
use racing_pedal_overlay::probe::ASSIST_BOTTOM;
use racing_pedal_overlay::probe::ASSIST_TOP;
use racing_pedal_overlay::probe::BRAKE_PRESSED;
use racing_pedal_overlay::probe::BRAKE_TOUCHED;
use racing_pedal_overlay::probe::NOISE;
use racing_pedal_overlay::probe::PROBE_BYTES;
use racing_pedal_overlay::probe::PROBE_INTERVAL;
use racing_pedal_overlay::probe::STEADY;
use racing_pedal_overlay::single::Single;
use racing_pedal_overlay::telemetry::AcPhysicsSnapshot;
use racing_pedal_overlay::telemetry::Mapping;

fn single(x: f32) -> Single {
    Single { bits: x.to_bits() }
}

fn page(values: &[f32]) -> Vec<u8> {
    values.iter().flat_map(|v| v.to_le_bytes()).collect()
}

fn readings(values: &[f32]) -> Vec<(usize, Single)> {
    values.iter().enumerate().map(|(i, v)| (4 * i, single(*v))).collect()
}

fn probe(name: &str, values: &[f32]) -> Probe {
    Probe {
        name: name.to_string(),
        has_data: values.iter().any(|v| v.to_bits() != 0),
        values: readings(values),
    }
}

fn snap(brake: f32) -> AcPhysicsSnapshot {
    AcPhysicsSnapshot {
        gas: single(0.5),
        brake: single(brake),
        clutch: single(0.0),
        steer_angle: single(0.0),
        speed_kmh: single(100.0),
        gear: 3,
        rpms: 5000,
        abs_active: false,
        tc_active: false,
        abs_vibration: single(0.0),
    }
}

#[test]
fn probe_thresholds_are_the_numbers_they_name() {
    assert_eq!(NOISE, 0.0001f32.to_bits());
    assert_eq!(STEADY, 0.001f32.to_bits());
    assert_eq!(BRAKE_TOUCHED, 0.1f32.to_bits());
    assert_eq!(BRAKE_PRESSED, 0.3f32.to_bits());
    assert_eq!(ASSIST_TOP, 1.5f32.to_bits());
    assert_eq!(ASSIST_BOTTOM, (-1.5f32).to_bits());
}

#[test]
fn mapping_is_read_in_singles() {
    let view = Mapping::Page(page(&[0.0, 1.5, -2.0, 9.0]));
    let (has_data, values) = probe_shm_by_name(&view, 15).unwrap();
    assert!(has_data);
    assert_eq!(values, readings(&[0.0, 1.5, -2.0]));
    let (has_data, values) = probe_shm_by_name(&view, 4).unwrap();
    assert!(!has_data);
    assert_eq!(values, readings(&[0.0]));
    // A negative zero is not the zero of an untouched page.
    assert!(probe_shm_by_name(&Mapping::Page(page(&[-0.0])), 4).unwrap().0);
    assert!(probe_shm_by_name(&Mapping::Absent, 4).is_none());
    assert!(probe_shm_by_name(&Mapping::Unreadable, 4).is_none());
    assert_eq!(PROBE_BYTES, 1500);
}

#[test]
fn mappings_that_cannot_be_read_are_left_out() {
    let views = vec![
        Mapping::Absent,
        Mapping::Page(page(&[0.0])),
        Mapping::Unreadable,
        Mapping::Page(page(&[3.0])),
        Mapping::Absent,
        Mapping::Absent,
    ];
    let probes = probe_all_shm(&views, 4);
    assert_eq!(probes.len(), 2);
    assert_eq!(probes[0].name, "Local\\acevo_pmf_graphics");
    assert!(!probes[0].has_data);
    assert_eq!(probes[1].name, "Local\\acpmf_physics");
    assert!(probes[1].has_data);
    assert_eq!(probes[1].values, readings(&[3.0]));
}

#[test]
fn scans_are_an_interval_apart() {
    let mut state = TelemetryLoop::new(1000);
    assert!(!state.begin_tick(1000 + PROBE_INTERVAL - 1));
    assert!(state.begin_tick(1000 + PROBE_INTERVAL));
    assert!(!state.begin_tick(1000 + PROBE_INTERVAL));
    assert!(!state.begin_tick(1000 + 2 * PROBE_INTERVAL - 1));
    assert!(state.begin_tick(1000 + 2 * PROBE_INTERVAL));
    assert_eq!(state.tick_count, 5);
    assert_eq!(PROBE_INTERVAL, 200_000_000);
}

#[test]
fn scan_finds_the_first_live_mapping() {
    let mut state = TelemetryLoop::new(0);
    state.begin_tick(1);
    let probes = vec![
        probe("a", &[0.0, 0.0]),
        probe("b", &[0.0, 2.0, 0.00005, f32::INFINITY]),
        probe("c", &[7.0]),
    ];
    let records = state.scan(&probes);
    assert_eq!(state.found_active_shm, Some("b".to_string()));
    assert_eq!(records.len(), 2);
    match &records[0] {
        Record::List(rows) => {
            let rows: Vec<(&str, bool, usize, usize)> =
                rows.iter().map(|r| (r.name.as_str(), r.has_data, r.nonzero, r.total)).collect();
            assert_eq!(rows, vec![("a", false, 0, 2), ("b", true, 3, 4), ("c", true, 1, 1)]);
        }
        other => panic!("{other:?}"),
    }
    match &records[1] {
        Record::Active { name, values } => {
            assert_eq!(name, "b");
            assert_eq!(*values, vec![(4, single(2.0))]);
        }
        other => panic!("{other:?}"),
    }
    // The same mapping again is no news, and the list is done.
    state.begin_tick(2);
    assert!(state.scan(&probes).is_empty());
    assert!(state.scan(&Vec::new()).is_empty());
    assert_eq!(state.found_active_shm, Some("b".to_string()));
}

#[test]
fn values_as_small_as_noise_are_not_written_out() {
    let mut state = TelemetryLoop::new(0);
    state.begin_tick(1);
    let values = [0.0001f32, 0.00010001, -0.00010001, -0.0001, f32::NAN, f32::NEG_INFINITY, -3.0];
    let records = state.scan(&vec![probe("a", &values)]);
    match &records[1] {
        Record::Active { values, .. } => {
            let expected =
                vec![(4, single(0.00010001)), (8, single(-0.00010001)), (24, single(-3.0))];
            assert_eq!(*values, expected);
        }
        other => panic!("{other:?}"),
    }
}

#[test]
fn nothing_found_is_said_until_something_is() {
    let mut state = TelemetryLoop::new(0);
    state.begin_tick(1);
    let records = state.scan(&Vec::new());
    assert!(matches!(records[..], [Record::Nothing]));
    let records = state.scan(&vec![probe("a", &[0.0])]);
    assert!(matches!(records[..], [Record::List(_)]));
    assert_eq!(state.found_active_shm, None);
}

#[test]
fn lists_and_snapshots_come_again() {
    let mut state = TelemetryLoop::new(0);
    let probes = vec![probe("a", &[1.0])];
    state.scan(&probes);
    state.tick_count = 299;
    state.begin_tick(1);
    let records = state.scan(&probes);
    assert!(matches!(records[..], [Record::Snapshot { .. }]));
    state.tick_count = 1799;
    state.begin_tick(1);
    let records = state.scan(&probes);
    assert!(matches!(records[..], [Record::List(_), Record::Snapshot { .. }]));
    state.begin_tick(1);
    assert!(state.scan(&probes).is_empty());
}

#[test]
fn another_live_mapping_is_news() {
    let mut state = TelemetryLoop::new(0);
    state.tick_count = 1;
    state.scan(&vec![probe("a", &[1.0])]);
    let records = state.scan(&vec![probe("a", &[0.0]), probe("b", &[1.0])]);
    assert!(matches!(&records[..], [Record::Active { name, .. }] if name == "b"));
    assert_eq!(state.found_active_shm, Some("b".to_string()));
}

#[test]
fn live_mapping_is_looked_up_by_its_name() {
    let mut state = TelemetryLoop::new(0);
    assert_eq!(state.probe_target(), None);
    assert!(!state.needs_baseline());
    let mut views: Vec<Mapping> = (0..6).map(|_| Mapping::Absent).collect();
    views[4] = Mapping::Page(page(&[1.0]));
    state.scan(&probe_all_shm(&views, 4));
    assert_eq!(state.probe_target(), Some(&b"Local\\acpmf_graphics\0"[..]));
    assert!(state.needs_baseline());
    state.found_active_shm = Some("unknown".to_string());
    assert_eq!(state.probe_target(), None);
}

#[test]
fn changes_are_told_from_the_baseline() {
    let base = readings(&[0.0, 1.0, 5.0, 0.25, 2.0, -1.0]);
    let now = readings(&[0.001, 1.0011, f32::NAN, 0.75, f32::INFINITY, 1.6, 9.0]);
    let rows = compare(&now, &base, single(0.35));
    let expected = vec![
        Changed {
            offset: 4,
            value: single(1.0011),
            base: single(1.0),
            delta: single((1.0011f32 - 1.0).abs()),
            marked: true,
        },
        Changed {
            offset: 12,
            value: single(0.75),
            base: single(0.25),
            delta: single(0.5),
            marked: true,
        },
        Changed {
            offset: 20,
            value: single(1.6),
            base: single(-1.0),
            delta: single(2.6),
            marked: false,
        },
    ];
    assert_eq!(rows, expected);
    // With the brake pressed less, nothing can be the ABS flag.
    assert!(compare(&now, &base, single(0.3)).iter().all(|row| !row.marked));
    assert!(compare(&base, &base, single(1.0)).is_empty());
}

#[test]
fn assists_are_small_and_near_the_start() {
    let row = |offset: usize, value: f32| Changed {
        offset,
        value: single(value),
        base: single(0.0),
        delta: single(value.abs()),
        marked: false,
    };
    let rows = vec![
        row(0, 1.5),
        row(4, 1.5000001),
        row(8, -1.5),
        row(12, -1.5000001),
        row(800, 0.5),
        row(804, 0.5),
        row(16, f32::NAN),
    ];
    assert_eq!(
        keep_assists(&rows),
        vec![(0, single(1.5)), (8, single(-1.5)), (800, single(0.5))]
    );
}

#[test]
fn tick_ends_in_a_packet() {
    let mut state = TelemetryLoop::new(0);
    let (data, record) = state.finish_tick(Some(snap(0.5)), None, None).unwrap();
    assert_eq!(data.gear, Some(2));
    assert!(data.probe_values.is_empty());
    assert!(record.is_none());
    state.scan(&vec![probe("a", &[1.0])]);
    let first = readings(&[1.0, 0.0]);
    let (data, record) =
        state.finish_tick(Some(snap(0.5)), Some(first.clone()), Some(first.clone())).unwrap();
    assert!(data.probe_values.is_empty());
    assert!(record.is_none());
    assert_eq!(state.probe_baseline, Some(first.clone()));
    let (data, record) =
        state.finish_tick(Some(snap(0.5)), None, Some(readings(&[1.25, 7.0]))).unwrap();
    assert_eq!(data.probe_values, vec![(0, single(1.25))]);
    match record {
        Some(Record::Moved { brake, rows }) => {
            assert_eq!(brake, single(0.5));
            assert_eq!(rows.len(), 2);
            assert!(rows[0].marked && !rows[1].marked);
        }
        other => panic!("{other:?}"),
    }
    // The first reading stays.
    state.finish_tick(Some(snap(0.5)), Some(readings(&[9.0])), None);
    assert_eq!(state.probe_baseline, Some(first));
}

#[test]
fn tick_without_a_page_sends_nothing() {
    let mut state = TelemetryLoop::new(0);
    state.scan(&vec![probe("a", &[1.0])]);
    let before = format!("{state:?}");
    assert!(state.finish_tick(None, Some(readings(&[1.0])), Some(readings(&[2.0]))).is_none());
    assert_eq!(format!("{state:?}"), before);
}

#[test]
fn highest_engine_speed_is_kept() {
    let mut state = TelemetryLoop::new(0);
    let mut sent = |rpms: i32| {
        let page = AcPhysicsSnapshot { rpms, ..snap(0.0) };
        let (data, _) = state.finish_tick(Some(page), None, None).unwrap();
        (data.rpm, data.max_rpm)
    };
    assert_eq!(sent(-3), (Some(-3), None));
    assert_eq!(sent(0), (Some(0), None));
    assert_eq!(sent(900), (Some(900), Some(900)));
    assert_eq!(sent(7400), (Some(7400), Some(7400)));
    assert_eq!(sent(3000), (Some(3000), Some(7400)));
    assert_eq!(sent(0), (Some(0), Some(7400)));
}

/// Some ticks, and what they send. Where `log` is not set, what there is to log is dropped.
fn run(pages: &[Option<i32>], log: bool) -> (Vec<String>, Vec<String>) {
    let mut state = TelemetryLoop::new(0);
    let mut sent = Vec::new();
    let mut logged = Vec::new();
    for (i, page) in pages.iter().enumerate() {
        let mut records = Vec::new();
        if state.begin_tick(i as u64 * PROBE_INTERVAL / 2) {
            records.extend(state.scan(&vec![probe("a", &[1.0, i as f32])]));
        }
        let page = page.map(|rpms| AcPhysicsSnapshot { rpms, ..snap(0.5) });
        let first = if state.needs_baseline() { Some(readings(&[1.0, 0.0])) } else { None };
        let values = Some(readings(&[1.0, i as f32]));
        if let Some((data, record)) = state.finish_tick(page, first, values) {
            records.extend(record);
            sent.push(format!("{data:?}"));
        }
        if log {
            logged.extend(records.iter().map(|r| format!("{r:?}")));
        }
    }
    (sent, logged)
}

#[test]
fn one_packet_for_each_page_in_order() {
    let pages = [None, Some(1), Some(2), None, None, Some(3), Some(4), None];
    let (sent, _) = run(&pages, true);
    assert_eq!(sent.len(), 4);
    for (i, packet) in sent.iter().enumerate() {
        assert!(packet.contains(&format!("rpm: Some({}),", i + 1)));
    }
    assert!(run(&[None, None, None], true).0.is_empty());
}

#[test]
fn log_that_fails_alters_no_packet() {
    let pages = [None, Some(10), Some(20), None, Some(15), Some(40), Some(40)];
    let (with_log, logged) = run(&pages, true);
    let (without_log, nothing) = run(&pages, false);
    assert!(!logged.is_empty() && nothing.is_empty());
    assert_eq!(with_log, without_log);
}

#[test]
fn without_the_brake_nothing_is_logged() {
    let mut state = TelemetryLoop::new(0);
    state.scan(&vec![probe("a", &[1.0])]);
    state.finish_tick(Some(snap(0.0)), Some(readings(&[1.0])), None);
    let (data, record) =
        state.finish_tick(Some(snap(0.1)), None, Some(readings(&[0.5]))).unwrap();
    assert!(record.is_none());
    assert_eq!(data.probe_values, vec![(0, single(0.5))]);
    let (_, record) =
        state.finish_tick(Some(snap(0.10000001)), None, Some(readings(&[0.5]))).unwrap();
    assert!(record.is_some());
}

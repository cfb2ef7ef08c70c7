use racing_pedal_overlay::single::Single;
use racing_pedal_overlay::telemetry::read_ac_shared_physics;
use racing_pedal_overlay::telemetry::read_signed;
use racing_pedal_overlay::telemetry::read_single;
use racing_pedal_overlay::telemetry::read_word;
use racing_pedal_overlay::telemetry::AcPhysicsSnapshot;
use racing_pedal_overlay::telemetry::Mapping;
use racing_pedal_overlay::telemetry::TelemetryData;
use racing_pedal_overlay::telemetry::ABS_FLOOR;
use racing_pedal_overlay::telemetry::PHYSICS_BYTES;
use racing_pedal_overlay::telemetry::TC_FLOOR;

fn single(x: f32) -> Single {
    Single { bits: x.to_bits() }
}

fn put(page: &mut Vec<u8>, offset: usize, bytes: [u8; 4]) {
    page[offset..offset + 4].copy_from_slice(&bytes);
}

fn page(abs: f32, tc: f32) -> Vec<u8> {
    let mut page = vec![0u8; PHYSICS_BYTES];
    put(&mut page, 4, 0.8f32.to_le_bytes());
    put(&mut page, 8, 0.25f32.to_le_bytes());
    put(&mut page, 12, 42.0f32.to_le_bytes());
    put(&mut page, 16, 4i32.to_le_bytes());
    put(&mut page, 20, 7250i32.to_le_bytes());
    put(&mut page, 24, (-0.3f32).to_le_bytes());
    put(&mut page, 28, 187.5f32.to_le_bytes());
    put(&mut page, 204, tc.to_le_bytes());
    put(&mut page, 252, abs.to_le_bytes());
    put(&mut page, 364, 0.1f32.to_le_bytes());
    page
}

fn read(page: Vec<u8>) -> AcPhysicsSnapshot {
    read_ac_shared_physics(&Mapping::Page(page), &Mapping::Absent).unwrap()
}

#[test]
fn thresholds_are_the_numbers_they_name() {
    assert_eq!(ABS_FLOOR, 0.01f32.to_bits());
    assert_eq!(TC_FLOOR, 0.5f32.to_bits());
}

#[test]
fn words_are_little_endian() {
    let bytes = [0x11, 0x22, 0x33, 0x44, 0xFE, 0xFF, 0xFF, 0xFF, 0, 0, 0x80, 0x3F];
    assert_eq!(read_word(&bytes, 0), 0x4433_2211);
    assert_eq!(read_word(&bytes, 1), 0xFE44_3322);
    assert_eq!(read_signed(&bytes, 4), -2);
    assert_eq!(read_signed(&bytes, 0), 0x4433_2211);
    assert_eq!(read_single(&bytes, 8), single(1.0));
}

#[test]
fn physics_page_is_read_at_its_offsets() {
    let snap = read(page(0.4, 0.6));
    assert_eq!(
        snap,
        AcPhysicsSnapshot {
            gas: single(0.8),
            brake: single(0.25),
            clutch: single(0.1),
            steer_angle: single(-0.3),
            speed_kmh: single(187.5),
            gear: 4,
            rpms: 7250,
            abs_active: true,
            tc_active: true,
            abs_vibration: single(0.4),
        }
    );
}

#[test]
fn assists_are_on_above_their_thresholds() {
    assert!(!read(page(0.01, 0.0)).abs_active);
    assert!(read(page(0.010000001, 0.0)).abs_active);
    assert!(!read(page(0.0, 0.5)).tc_active);
    assert!(read(page(0.0, 0.50000006)).tc_active);
    assert!(!read(page(f32::NAN, f32::NAN)).abs_active);
    assert!(!read(page(f32::NAN, f32::NAN)).tc_active);
}

#[test]
fn vibration_is_clamped() {
    assert_eq!(read(page(3.0, 0.0)).abs_vibration, single(1.0));
    assert_eq!(read(page(-3.0, 0.0)).abs_vibration, single(0.0));
    assert_eq!(read(page(0.7, 0.0)).abs_vibration, single(0.7));
    assert!(read(page(f32::NAN, 0.0)).abs_vibration.is_nan());
}

#[test]
fn newer_game_counts_first() {
    let newer = page(0.0, 0.0);
    let mut older = page(0.0, 0.0);
    put(&mut older, 20, 900i32.to_le_bytes());
    let both = read_ac_shared_physics(&Mapping::Page(newer.clone()), &Mapping::Page(older.clone()));
    assert_eq!(both.unwrap().rpms, 7250);
    let fallback = read_ac_shared_physics(&Mapping::Absent, &Mapping::Page(older.clone()));
    assert_eq!(fallback.unwrap().rpms, 900);
    // A mapping of the newer game that cannot be viewed does not lead to the older one.
    assert!(read_ac_shared_physics(&Mapping::Unreadable, &Mapping::Page(older)).is_none());
    assert!(read_ac_shared_physics(&Mapping::Absent, &Mapping::Unreadable).is_none());
    assert!(read_ac_shared_physics(&Mapping::Absent, &Mapping::Absent).is_none());
}

#[test]
fn packet_carries_the_physics() {
    let snap = read(page(0.4, 0.6));
    let data = TelemetryData::from_physics(&snap, Some(8200), vec![(252, single(0.4))]);
    assert_eq!(data.sim_name, "AC Evo (SHM)");
    assert_eq!(data.gear, Some(3));
    assert_eq!(data.speed_kmh, Some(single(187.5)));
    assert_eq!(data.rpm, Some(7250));
    assert_eq!(data.max_rpm, Some(8200));
    assert!(data.abs_active && data.tc_active);
    assert_eq!(data.abs_vibration, single(0.4));
    assert_eq!(data.steer_angle, Some(single(-0.3)));
    assert_eq!(data.pedals_game, Some((single(0.8), single(0.25), single(0.1))));
    assert_eq!(data.pedals_raw, None);
    assert_eq!(data.abs_source, "shm");
    assert_eq!(data.probe_values, vec![(252, single(0.4))]);
}

#[test]
fn gears_count_from_neutral() {
    let mut snap = read(page(0.0, 0.0));
    for (raw, gear) in [(0, -1), (1, 0), (2, 1), (8, 7), (128, 127), (129, -128), (257, 0), (-255, 0)] {
        snap.gear = raw;
        assert_eq!(TelemetryData::from_physics(&snap, None, Vec::new()).gear, Some(gear));
        assert_eq!(gear, (raw - 1) as i8);
    }
    snap.gear = i32::MIN;
    assert_eq!(TelemetryData::from_physics(&snap, None, Vec::new()).gear, Some(-1));
}

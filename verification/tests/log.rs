use racing_pedal_overlay::log::header_lines;
use racing_pedal_overlay::log::record_lines;
use racing_pedal_overlay::probe::Changed;
use racing_pedal_overlay::probe::Listed;
use racing_pedal_overlay::probe::Record;
use racing_pedal_overlay::single::Single;

fn single(x: f32) -> Single {
    Single { bits: x.to_bits() }
}

#[test]
fn log_begins_with_a_header() {
    let lines = header_lines();
    assert_eq!(lines[0], "=== AC Evo SHM Probe ===");
    assert_eq!(lines[1], "Probing 6 SHM names every 200ms, 1500 bytes each");
    assert_eq!(lines[2], "");
    assert_eq!(lines.len(), 3);
}

#[test]
fn mappings_are_listed() {
    let rows = vec![
        Listed { name: "Local\\acpmf_physics".to_string(), has_data: true, nonzero: 31, total: 375 },
        Listed { name: "Local\\acpmf_static".to_string(), has_data: false, nonzero: 0, total: 375 },
    ];
    assert_eq!(
        record_lines(&Record::List(rows), "1.2"),
        vec![
            "[t=1.2s] SHM scan — 2 mappings found:",
            "  Local\\acpmf_physics — has_data:true nonzero_f32s:31/375",
            "  Local\\acpmf_static — has_data:false nonzero_f32s:0/375",
            "",
        ]
    );
}

#[test]
fn live_mapping_is_written_out() {
    let values = vec![(8, single(0.5)), (1496, single(-123456.79))];
    let record = Record::Active { name: "Local\\acpmf_physics".to_string(), values: values.clone() };
    assert_eq!(
        record_lines(&record, "0.2"),
        vec![
            "[t=0.2s] >>> ACTIVE SHM FOUND: Local\\acpmf_physics <<<".to_string(),
            "  Non-zero values:".to_string(),
            "    off    8:       0.500000".to_string(),
            format!("    off {:>4}: {:>14.6}", 1496, -123456.79f32),
            String::new(),
        ]
    );
    let record = Record::Snapshot { name: "Local\\acpmf_physics".to_string(), values };
    let lines = record_lines(&record, "4.8");
    assert_eq!(lines[0], "[SNAPSHOT t=4.8s] Local\\acpmf_physics");
    assert_eq!(lines[1], "    off    8:       0.500000");
    assert_eq!(lines.len(), 4);
}

#[test]
fn missing_mappings_are_told() {
    assert_eq!(
        record_lines(&Record::Nothing, "3.0"),
        vec!["[t=3.0s] No SHM mappings found — game not running?"]
    );
}

#[test]
fn moved_values_are_told() {
    let row = |offset: usize, value: f32, base: f32, marked: bool| Changed {
        offset,
        value: single(value),
        base: single(base),
        delta: single((value - base).abs()),
        marked,
    };
    let rows = vec![row(252, 0.4, 0.0, true), row(1200, -77.25, 1.5, false)];
    let record = Record::Moved { brake: single(0.3456), rows };
    assert_eq!(
        record_lines(&record, "12.5"),
        vec![
            "[t=12.5s] brake=0.346 | 2 changed:".to_string(),
            format!(
                "  off {:>4}: {:>10.6} (was {:>10.6}, d={:.4}) <<<ABS?",
                252, 0.4f32, 0.0f32, 0.4f32
            ),
            "  off 1200: -77.250000 (was   1.500000, d=78.7500)".to_string(),
        ]
    );
}

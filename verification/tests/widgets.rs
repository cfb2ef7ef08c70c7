use egui::Color32;
use racing_pedal_overlay::color::palette;
use racing_pedal_overlay::color::Rgba;
use racing_pedal_overlay::overlay::Sample;
use racing_pedal_overlay::single::Single;
use racing_pedal_overlay::widgets::draw_gear;
use racing_pedal_overlay::widgets::draw_graph;
use racing_pedal_overlay::widgets::draw_resize_grip;
use racing_pedal_overlay::widgets::draw_speed;
use racing_pedal_overlay::widgets::draw_wheel;
use racing_pedal_overlay::widgets::plan_graph;
use racing_pedal_overlay::widgets::size_grip;
use racing_pedal_overlay::widgets::GraphPoint;
use racing_pedal_overlay::widgets::Grip;
use racing_pedal_overlay::widgets::Segment;
use racing_pedal_overlay::widgets::Trace;
use racing_pedal_overlay::widgets::ABS_SHOWN;
use racing_pedal_overlay::widgets::CLUTCH_WIDTH;
use racing_pedal_overlay::widgets::CUT_WIDTH;
use racing_pedal_overlay::widgets::FIVE_HALVES;
use racing_pedal_overlay::widgets::GRIP_DELAY;
use racing_pedal_overlay::widgets::INNER_SHARE;
use racing_pedal_overlay::widgets::PI;
use racing_pedal_overlay::widgets::RPM_HIGH;
use racing_pedal_overlay::widgets::RPM_LIMIT;
use racing_pedal_overlay::widgets::SEVEN_HALVES;
use racing_pedal_overlay::widgets::THREE_HALVES;
use std::collections::VecDeque;

fn single(x: f32) -> Single {
    Single { bits: x.to_bits() }
}

fn opaque(r: u8, g: u8, b: u8) -> Rgba {
    Rgba { r, g, b, a: 255 }
}

fn rgba(color: Color32) -> Rgba {
    let (r, g, b, a) = color.to_tuple();
    Rgba { r, g, b, a }
}

/// Samples with the states of traction control and ABS that two texts spell out.
fn history(tc: &str, abs: &str) -> VecDeque<Sample> {
    tc.chars()
        .zip(abs.chars())
        .enumerate()
        .map(|(i, (t, a))| Sample {
            t: i as u64,
            throttle: single(i as f32),
            brake: single(i as f32 + 100.0),
            clutch: single(i as f32 + 200.0),
            abs_vibration: single(if a == '+' { 0.5 } else { 0.05 }),
            tc_active: t == '+',
            throttle_game: single(i as f32 + 300.0),
        })
        .collect()
}

fn points(first: u64, last: u64, level: f32) -> Vec<GraphPoint> {
    (first..=last).map(|t| GraphPoint { t, level: single(t as f32 + level) }).collect()
}

fn shape(segments: &Vec<Segment>) -> Vec<(u64, u64, bool)> {
    segments.iter().map(|s| (s.points[0].t, s.points[s.points.len() - 1].t, s.on)).collect()
}

#[test]
fn patterns_are_the_numbers_they_name() {
    assert_eq!(ABS_SHOWN, 0.05f32.to_bits());
    assert_eq!(CUT_WIDTH, 0.6f32.to_bits());
    assert_eq!(CLUTCH_WIDTH, 0.75f32.to_bits());
    assert_eq!(INNER_SHARE, 0.55f32.to_bits());
    assert_eq!(RPM_LIMIT, 0.9f32.to_bits());
    assert_eq!(RPM_HIGH, 0.7f32.to_bits());
    assert_eq!(PI, std::f32::consts::PI.to_bits());
    assert_eq!(THREE_HALVES, 1.5f32.to_bits());
    assert_eq!(FIVE_HALVES, 2.5f32.to_bits());
    assert_eq!(SEVEN_HALVES, 3.5f32.to_bits());
}

#[test]
fn segments_split_where_the_assist_changes() {
    let h = history("--++-", "+++++");
    let segments = Trace::Throttle.split(&h);
    assert_eq!(shape(&segments), vec![(0, 1, false), (1, 3, true), (3, 4, false)]);
    assert_eq!(segments[1].points, points(1, 3, 0.0));
    let segments = Trace::Brake.split(&h);
    assert_eq!(shape(&segments), vec![(0, 4, true)]);
    assert_eq!(segments[0].points, points(0, 4, 100.0));
    assert!(Trace::Brake.split(&VecDeque::new()).is_empty());
}

#[test]
fn segments_join_to_the_trace() {
    let h = history("-+-++--+", "++--++-+");
    for trace in [Trace::Throttle, Trace::Brake] {
        let segments = trace.split(&h);
        let mut joined = segments[0].points.clone();
        for pair in segments.windows(2) {
            assert_ne!(pair[0].on, pair[1].on);
            assert_eq!(pair[1].points[0], pair[0].points[pair[0].points.len() - 1]);
            joined.extend_from_slice(&pair[1].points[1..]);
        }
        assert_eq!(joined, trace.collect_points(&h));
    }
}

#[test]
fn points_are_marked_by_their_state() {
    let h = history("-+-++--+", "++--++-+");
    for trace in [Trace::Throttle, Trace::Brake] {
        let segments = trace.split(&h);
        let all = trace.collect_points(&h);
        for (i, point) in all.iter().enumerate() {
            let on = if trace == Trace::Throttle { h[i].tc_active } else { h[i].abs_vibration.gt(single(0.05)) };
            assert!(segments.iter().any(|s| s.on == on && s.points.contains(point)));
        }
    }
}

#[test]
fn graph_without_assists_has_three_lines() {
    let face = draw_graph(&history("---", "---"), single(56.0));
    assert_eq!(face.lines.len(), 3);
    assert_eq!(face.lines[0].color, opaque(100, 220, 70));
    assert_eq!(face.lines[0].points, points(0, 2, 0.0));
    assert_eq!(face.lines[0].width, single(2.0));
    assert_eq!(face.lines[1].color, opaque(240, 55, 50));
    assert_eq!(face.lines[1].points, points(0, 2, 100.0));
    assert_eq!(face.lines[2].color, opaque(60, 130, 255));
    assert_eq!(face.lines[2].points, points(0, 2, 200.0));
    assert_eq!(face.lines[2].width, single(1.5));
}

#[test]
fn graph_shows_assists() {
    let face = draw_graph(&history("-++-", "--++"), single(56.0));
    let colors: Vec<Rgba> = face.lines.iter().map(|l| l.color).collect();
    let glow = rgba(Color32::from_rgba_unmultiplied(255, 200, 40, 50));
    assert_eq!(
        colors,
        vec![
            glow,
            opaque(100, 220, 70),
            opaque(255, 200, 40),
            opaque(100, 220, 70),
            opaque(180, 100, 255),
            opaque(240, 55, 50),
            opaque(255, 160, 20),
            opaque(60, 130, 255),
        ]
    );
    assert_eq!(face.lines[0].width, single(8.0));
    assert_eq!(face.lines[0].points, points(0, 2, 0.0));
    assert_eq!(face.lines[4].width, single(2.0 * 0.6));
    assert_eq!(face.lines[4].points, points(0, 3, 300.0));
    assert_eq!(face.lines[6].points, points(1, 3, 100.0));
}

#[test]
fn graph_box_and_widths_scale() {
    for h in [10.0f32, 56.0, 100.0, 300.0] {
        let face = draw_graph(&history("-", "-"), single(h));
        let width = 2.0 * (h / 56.0);
        assert_eq!(face.lines[0].width, single(width));
        assert_eq!(face.lines[2].width, single(width * 0.75));
        assert_eq!(face.corner, single(6.0 * (h / 56.0)));
        assert_eq!(face.margin, single(h / 56.0));
        assert_eq!(face.fill, rgba(Color32::from_rgba_unmultiplied(12, 14, 20, 240)));
        assert_eq!(face.outline.color, rgba(Color32::from_rgba_unmultiplied(60, 70, 100, 80)));
        assert_eq!(face.outline.width, single(0.5 * (h / 56.0)));
    }
}

#[test]
fn planned_graph_takes_the_given_glow() {
    let mut colors = palette();
    colors.glow = opaque(1, 2, 3);
    let face = plan_graph(&history("+", "-"), single(56.0), &colors);
    assert_eq!(face.lines[0].color, opaque(1, 2, 3));
}

#[test]
fn gears_are_written_out() {
    let text = |gear: Option<i8>| draw_gear(gear, single(0.0), single(56.0)).text;
    assert_eq!(text(None), "N");
    assert_eq!(text(Some(0)), "N");
    assert_eq!(text(Some(-1)), "R");
    assert_eq!(text(Some(-128)), "R");
    for gear in 1..=127i8 {
        assert_eq!(text(Some(gear)), format!("{}", gear));
    }
}

#[test]
fn gear_colors_follow_the_engine() {
    let color = |rpm_pct: f32| draw_gear(Some(3), single(rpm_pct), single(56.0)).color;
    assert_eq!(color(0.0), opaque(50, 215, 50));
    assert_eq!(color(0.7), opaque(50, 215, 50));
    assert_eq!(color(0.70000005), opaque(255, 210, 30));
    assert_eq!(color(0.9), opaque(255, 210, 30));
    assert_eq!(color(0.90000004), opaque(255, 40, 40));
    assert_eq!(color(1.0), opaque(255, 40, 40));
    assert_eq!(color(f32::NAN), opaque(50, 215, 50));
    assert_eq!(draw_gear(None, single(1.0), single(56.0)).color, opaque(70, 70, 70));
}

#[test]
fn gear_box_scales() {
    for h in [10.0f32, 56.0, 90.0, 300.0] {
        let face = draw_gear(Some(1), single(0.0), single(h));
        assert_eq!(face.font, single(36.0 * (h / 56.0)));
        assert_eq!(face.corner, single(6.0 * (h / 56.0)));
        assert_eq!(face.fill, rgba(Color32::from_rgba_unmultiplied(18, 22, 30, 230)));
        assert_eq!(face.outline.color, rgba(Color32::from_rgba_unmultiplied(80, 90, 110, 80)));
        assert_eq!(face.outline.width, single(0.5 * (h / 56.0)));
    }
}

#[test]
fn speed_has_no_decimals() {
    let text = |speed: f32| draw_speed(Some(single(speed)), single(56.0)).text;
    assert_eq!(text(0.0), "0");
    assert_eq!(text(99.4), "99");
    assert_eq!(text(99.5), "100");
    assert_eq!(text(312.7), "313");
    assert_eq!(text(-3.2), "-3");
    let none = draw_speed(None, single(56.0));
    assert_eq!(none.text, "0");
    assert_eq!(none.color, opaque(55, 55, 55));
}

#[test]
fn speed_scales() {
    for h in [10.0f32, 56.0, 90.0, 300.0] {
        let scale = h / 56.0;
        let face = draw_speed(Some(single(50.0)), single(h));
        assert_eq!(face.color, rgba(Color32::WHITE));
        assert_eq!(face.font, single(28.0 * scale));
        assert_eq!(face.lift, single(4.0 * scale));
        assert_eq!(face.unit, "km/h");
        assert_eq!(face.unit_color, rgba(Color32::from_gray(110)));
        assert_eq!(face.unit_font, single(10.0 * scale));
        assert_eq!(face.unit_lift, single(2.0 * scale));
    }
}

#[test]
fn wheel_agrees_with_the_hardware() {
    let pi = std::f32::consts::PI;
    for h in [10.0f32, 56.0, 83.0, 200.0] {
        for steer in [-1.0f32, -0.37, 0.0, 0.5, 1.0, 2.25] {
            let scale = h / 56.0;
            let face = draw_wheel(single(steer), single(h));
            let r = h / 2.0 - 5.0 * scale;
            assert_eq!(face.radius, single(r));
            assert_eq!(face.rim.0.width, single(3.5 * scale));
            assert_eq!(face.rim.1.width, single(2.0 * scale));
            assert_eq!(face.hub_radius, single(4.0 * scale));
            assert_eq!(face.hub.width, single(1.5 * scale));
            assert_eq!(face.spoke_end, single(r - scale));
            assert_eq!(face.spoke.0.width, single(2.5 * scale));
            assert_eq!(face.spoke.1.width, single(1.5 * scale));
            let rot = steer * pi * 0.5;
            let angle = |i: u32| single((i as f32) * 2.0 * pi / 3.0 - pi / 2.0 + rot);
            assert_eq!(face.spokes, (angle(0), angle(1), angle(2)));
        }
    }
}

#[test]
fn wheel_has_its_grays() {
    let face = draw_wheel(single(0.0), single(56.0));
    assert_eq!(face.rim.0.color, rgba(Color32::from_gray(60)));
    assert_eq!(face.rim.1.color, rgba(Color32::from_gray(180)));
    assert_eq!(face.hub_fill, rgba(Color32::from_gray(50)));
    assert_eq!(face.hub.color, rgba(Color32::from_gray(160)));
    assert_eq!(face.spoke.0.color, rgba(Color32::from_gray(55)));
    assert_eq!(face.spoke.1.color, rgba(Color32::from_gray(140)));
}

#[test]
fn grip_appears_after_the_delay() {
    let mut start = None;
    let grip = draw_resize_grip(&mut start, true, true, 1000);
    assert_eq!(grip, Grip { visible: false, resize: false, repaint: true });
    assert_eq!(start, Some(1000));
    let grip = draw_resize_grip(&mut start, true, true, 1000 + GRIP_DELAY - 1);
    assert!(!grip.visible && !grip.resize);
    let grip = draw_resize_grip(&mut start, true, false, 1000 + GRIP_DELAY);
    assert_eq!(grip, Grip { visible: true, resize: false, repaint: true });
    let grip = draw_resize_grip(&mut start, true, true, 1000 + GRIP_DELAY);
    assert_eq!(grip, Grip { visible: true, resize: true, repaint: true });
    assert_eq!(start, Some(1000));
}

#[test]
fn leaving_the_corner_hides_the_grip() {
    let mut start = Some(0);
    let grip = draw_resize_grip(&mut start, false, true, 10 * GRIP_DELAY);
    assert_eq!(grip, Grip { visible: false, resize: false, repaint: false });
    assert_eq!(start, None);
    assert_eq!(GRIP_DELAY, 500_000_000);
}

#[test]
fn grip_scales() {
    for h in [10.0f32, 56.0, 83.0, 200.0] {
        let scale = h / 56.0;
        let grip = size_grip(single(h));
        assert_eq!(grip.side, single(14.0 * scale));
        assert_eq!(grip.inner, single(14.0 * scale * 0.55));
        assert_eq!(grip.line, single(1.5 * scale));
    }
}

#[test]
fn twice_the_height_is_twice_the_gear() {
    let small = draw_gear(Some(4), single(0.0), single(56.0));
    let large = draw_gear(Some(4), single(0.0), single(112.0));
    assert_eq!((small.font, large.font), (single(36.0), single(72.0)));
    assert_eq!((small.corner, large.corner), (single(6.0), single(12.0)));
    assert_eq!((small.outline.width, large.outline.width), (single(0.5), single(1.0)));
}

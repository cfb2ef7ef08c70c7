use racing_pedal_overlay::layout::lay_out;
use racing_pedal_overlay::layout::lay_panel;
use racing_pedal_overlay::layout::place_window;
use racing_pedal_overlay::layout::primary_monitor_size;
use racing_pedal_overlay::layout::scale_of;
use racing_pedal_overlay::layout::size;
use racing_pedal_overlay::layout::MARGIN_SHARE;
use racing_pedal_overlay::layout::WINDOW_SHARE;
use racing_pedal_overlay::single::Single;

fn single(x: f32) -> Single {
    Single { bits: x.to_bits() }
}

const HEIGHTS: [f32; 9] = [0.0, 1.0, 17.3, 40.0, 56.0, 64.7, 88.1, 200.0, 5000.0];

#[test]
fn shares_are_the_numbers_they_name() {
    assert_eq!(WINDOW_SHARE, 0.26f32.to_bits());
    assert_eq!(MARGIN_SHARE, 0.04f32.to_bits());
}

#[test]
fn sizes_agree_with_the_hardware() {
    for h in HEIGHTS {
        let scale = h / 56.0;
        assert_eq!(scale_of(single(h)), single(scale));
        assert_eq!(size(5, single(h)), single(5.0 * scale));
        assert_eq!(size(36, single(h)), single(36.0 * scale));
    }
}

#[test]
fn sizes_are_as_drawn_at_the_base_height() {
    for n in [0u32, 1, 2, 12, 48, 74, 1_000_000] {
        assert_eq!(size(n, single(56.0)), single(n as f32));
    }
}

#[test]
fn sizes_grow_with_the_height() {
    for pair in HEIGHTS.windows(2) {
        for n in [1, 4, 36, 74] {
            assert!(size(n, single(pair[1])).ge(size(n, single(pair[0]))));
        }
    }
}

#[test]
fn sizes_double_with_the_height() {
    for h in [1.0f32, 3.7, 41.0, 56.0, 97.3, 2000.0] {
        for n in [1u32, 2, 6, 36, 74] {
            let small = f32::from_bits(size(n, single(h)).bits);
            assert_eq!(size(n, single(2.0 * h)), single(2.0 * small));
        }
    }
}

#[test]
fn monitor_is_at_least_eight_hundred_by_six_hundred() {
    assert_eq!(primary_monitor_size(Some((2560, 1440))), (2560, 1440));
    assert_eq!(primary_monitor_size(Some((640, 480))), (800, 600));
    assert_eq!(primary_monitor_size(Some((0, 4000))), (800, 4000));
    assert_eq!(primary_monitor_size(Some((i32::MIN, i32::MAX))), (800, 2147483647));
    assert_eq!(primary_monitor_size(None), (1920, 1080));
}

#[test]
fn window_placement_agrees_with_the_hardware() {
    for (w, h) in [(800u32, 600u32), (1920, 1080), (2560, 1440), (3840, 2160), (7680, 4320), (1366, 768)] {
        let win_w = (w as f32 * 0.26).clamp(400.0, 1000.0);
        let win_h = (win_w / 5.0).clamp(80.0, 200.0);
        let place = place_window(w, h);
        assert_eq!(place.width, single(win_w));
        assert_eq!(place.height, single(win_h));
        assert_eq!(place.x, single((w as f32 - win_w) / 2.0));
        assert_eq!(place.y, single(h as f32 - win_h - (h as f32 * 0.04)));
    }
    let place = place_window(1920, 1080);
    assert_eq!(place.width.bits, 0x43f99999);
    assert_eq!(place.height.bits, 0x42c7ae14);
    assert_eq!(place.x.bits, 0x4431999a);
    assert_eq!(place.y.bits, 0x446a3d71);
}

#[test]
fn window_fits_onto_the_monitor() {
    for (w, h) in [(800u32, 600u32), (1920, 1080), (5120, 1440), (u32::MAX, u32::MAX), (801, 10_000)] {
        let place = place_window(w, h);
        assert!(place.width.ge(single(400.0)) && single(1000.0).ge(place.width));
        assert!(place.height.ge(single(80.0)) && single(200.0).ge(place.height));
        assert!(single(w as f32).ge(place.width));
        assert!(place.x.ge(single(0.0)) && place.y.ge(single(0.0)));
    }
}

fn expected_graph(h: f32, available: f32, gear: bool, speed: bool, wheel: bool) -> f32 {
    let scale = h / 56.0;
    let gap = 12.0 * scale;
    let mut fixed = 0.0_f32;
    let mut extra_gaps = 0u32;
    if gear {
        fixed += 48.0 * scale;
        extra_gaps += 1;
    }
    if speed {
        fixed += 74.0 * scale;
        extra_gaps += 1;
    }
    if wheel {
        fixed += h;
        extra_gaps += 1;
    }
    fixed += gap * extra_gaps as f32 + 3.0 * scale;
    (available - fixed).max(60.0 * scale)
}

#[test]
fn row_agrees_with_the_hardware() {
    for h in HEIGHTS {
        let scale = h / 56.0;
        for available in [0.0f32, 100.0, 471.2, 1000.0] {
            for flags in 0..8 {
                let (gear, speed, wheel) = (flags & 1 != 0, flags & 2 != 0, flags & 4 != 0);
                let row = lay_out(single(h), single(available), gear, speed, wheel);
                assert_eq!(row.gap, single(12.0 * scale));
                assert_eq!(row.gear, single(48.0 * scale));
                assert_eq!(row.speed, single(74.0 * scale));
                assert_eq!(row.wheel, single(h));
                assert_eq!(row.graph, single(expected_graph(h, available, gear, speed, wheel)));
                assert!(row.graph.ge(size(60, single(h))));
            }
        }
    }
}

#[test]
fn panel_scales_with_the_window() {
    let panel = lay_panel(single(80.0));
    assert_eq!((panel.corner, panel.side), (single(14.0), single(14.0)));
    assert_eq!((panel.outer, panel.top), (single(4.0), single(8.0)));
    for window in [50.0f32, 99.84, 160.0, 200.0] {
        let unit = window / 80.0;
        let panel = lay_panel(single(window));
        assert_eq!((panel.corner, panel.side), (single(14.0 * unit), single(14.0 * unit)));
        assert_eq!((panel.outer, panel.top), (single(4.0 * unit), single(8.0 * unit)));
    }
}

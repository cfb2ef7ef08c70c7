use racing_pedal_overlay::single::Single;
use racing_pedal_overlay::text::align_right;
use racing_pedal_overlay::text::decimal_text;
use racing_pedal_overlay::text::fixed_text;
use racing_pedal_overlay::text::whole_text;

fn single(x: f32) -> Single {
    Single { bits: x.to_bits() }
}

#[test]
fn decimals_of_whole_numbers() {
    for n in [0u128, 1, 9, 10, 99, 100, 127, 255, 1000, 18446744073709551616, u128::MAX] {
        assert_eq!(decimal_text(n), format!("{}", n));
    }
}

#[test]
fn whole_text_rounds_half_to_even() {
    assert_eq!(whole_text(single(0.5)), "0");
    assert_eq!(whole_text(single(1.5)), "2");
    assert_eq!(whole_text(single(2.5)), "2");
    assert_eq!(whole_text(single(287.4)), "287");
    assert_eq!(whole_text(single(287.6)), "288");
    assert_eq!(whole_text(single(-0.3)), "-0");
    assert_eq!(whole_text(single(-12.7)), "-13");
}

#[test]
fn whole_text_of_no_number() {
    assert_eq!(whole_text(single(f32::NAN)), "NaN");
    assert_eq!(whole_text(single(-f32::NAN)), "NaN");
    assert_eq!(whole_text(single(f32::INFINITY)), "inf");
    assert_eq!(whole_text(single(f32::NEG_INFINITY)), "-inf");
}

#[test]
fn whole_text_agrees_with_formatting() {
    let mut state: u64 = 5;
    for i in 0..20_000u32 {
        state = state.wrapping_mul(6364136223846793005).wrapping_add(1442695040888963407);
        let any = f32::from_bits((state >> 32) as u32);
        assert_eq!(whole_text(single(any)), format!("{:.0}", any as f64), "{any:e}");
        let speed = i as f32 / 16.0;
        assert_eq!(whole_text(single(speed)), format!("{:.0}", speed as f64), "{speed}");
    }
    for x in [f32::MAX, f32::MIN, 1.0e-45, 8388607.5, 8388608.0, 16777216.0, 0.49999997, 0.50000006] {
        assert_eq!(whole_text(single(x)), format!("{:.0}", x as f64));
    }
}

#[test]
fn fixed_text_agrees_with_formatting() {
    let mut state: u64 = 6;
    for i in 0..10_000u32 {
        state = state.wrapping_mul(6364136223846793005).wrapping_add(1442695040888963407);
        let any = f32::from_bits((state >> 32) as u32);
        let small = i as f32 / 4096.0 - 1.0;
        for x in [any, small] {
            assert_eq!(fixed_text(single(x), 1), format!("{:.1}", x), "{x:e}");
            assert_eq!(fixed_text(single(x), 3), format!("{:.3}", x), "{x:e}");
            assert_eq!(fixed_text(single(x), 4), format!("{:.4}", x), "{x:e}");
            assert_eq!(fixed_text(single(x), 6), format!("{:.6}", x), "{x:e}");
        }
    }
    for x in [0.0, -0.0, 0.0625, 0.1875, 1.0e-45, f32::MAX, f32::MIN, f32::INFINITY, f32::NAN] {
        assert_eq!(fixed_text(single(x), 3), format!("{:.3}", x));
    }
}

#[test]
fn text_is_aligned_to_the_right() {
    assert_eq!(align_right("12".to_string(), 4), "  12");
    assert_eq!(align_right("1234".to_string(), 4), "1234");
    assert_eq!(align_right("12345".to_string(), 4), "12345");
    assert_eq!(align_right(String::new(), 2), "  ");
}

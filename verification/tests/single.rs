use racing_pedal_overlay::single::Single;
use racing_pedal_overlay::single::HIDDEN;
use racing_pedal_overlay::single::INFINITY;
use racing_pedal_overlay::single::ONE;
use racing_pedal_overlay::single::ONE_HALF;
use racing_pedal_overlay::single::QUIET_NAN;
use racing_pedal_overlay::single::SIGN;

fn single(x: f32) -> Single {
    Single { bits: x.to_bits() }
}

const EDGES: [f32; 22] = [
    0.0,
    -0.0,
    1.0,
    -1.0,
    0.5,
    -0.5,
    2.0,
    1.5,
    -1.5,
    0.1,
    -0.1,
    1.0e-45,
    -1.0e-45,
    1.1754944e-38,
    1.1754942e-38,
    3.4028235e38,
    -3.4028235e38,
    f32::INFINITY,
    f32::NEG_INFINITY,
    f32::NAN,
    1.0000001,
    0.99999994,
];

/// Patterns spread over all of them.
fn patterns(count: usize) -> Vec<u32> {
    let mut state: u64 = 0x9E37_79B9_7F4A_7C15;
    let mut all: Vec<u32> = EDGES.iter().map(|x| x.to_bits()).collect();
    while all.len() < count {
        state = state.wrapping_mul(6364136223846793005).wrapping_add(1442695040888963407);
        all.push((state >> 32) as u32);
    }
    all
}

#[test]
fn constants_are_the_patterns_they_name() {
    assert_eq!(SIGN, (-0.0f32).to_bits());
    assert_eq!(INFINITY, f32::INFINITY.to_bits());
    assert_eq!(QUIET_NAN, f32::NAN.to_bits());
    assert_eq!(ONE, 1.0f32.to_bits());
    assert_eq!(ONE_HALF, 0.5f32.to_bits());
    assert_eq!(HIDDEN, 2.0f32.to_bits() - 1.0f32.to_bits());
}

#[test]
fn comparisons_agree_with_the_hardware() {
    let all = patterns(400);
    for &a in &all {
        for &b in &all {
            let (x, y) = (f32::from_bits(a), f32::from_bits(b));
            let (p, q) = (Single { bits: a }, Single { bits: b });
            assert_eq!(p.gt(q), x > y, "{x} > {y}");
            assert_eq!(p.ge(q), x >= y, "{x} >= {y}");
        }
    }
}

#[test]
fn kinds_and_signs_agree_with_the_hardware() {
    for a in patterns(2000) {
        let x = f32::from_bits(a);
        let p = Single { bits: a };
        assert_eq!(p.is_nan(), x.is_nan());
        assert_eq!(p.is_finite(), x.is_finite());
        assert_eq!(p.abs().bits, x.abs().to_bits());
        assert_eq!(p.negate().bits, (-x).to_bits());
    }
}

#[test]
fn clamp_and_max_agree_with_the_hardware() {
    let all = patterns(300);
    for &a in &all {
        let x = f32::from_bits(a);
        let p = Single { bits: a };
        assert_eq!(p.clamp(single(0.0), single(1.0)).bits, x.clamp(0.0, 1.0).to_bits());
        assert_eq!(p.clamp(single(-2.5), single(9.0)).bits, x.clamp(-2.5, 9.0).to_bits());
        for &b in &all {
            let y = f32::from_bits(b);
            let larger = p.max(Single { bits: b });
            if x.is_nan() && y.is_nan() {
                assert!(larger.is_nan());
            } else {
                // Zeros of either sign are equal, and either may come out.
                assert!(f32::from_bits(larger.bits) == x.max(y), "max({x}, {y})");
            }
        }
    }
}

#[test]
fn order_is_total_on_numbers() {
    for &a in &patterns(200) {
        for &b in &patterns(200) {
            let (p, q) = (Single { bits: a }, Single { bits: b });
            if !p.is_nan() && !q.is_nan() {
                assert_eq!(p.gt(q), !q.ge(p));
                assert!(p.ge(q) || q.ge(p));
            }
        }
    }
}

#[test]
fn clamped_numbers_lie_between_the_bounds() {
    let (low, high) = (single(-0.75), single(0.25));
    for &a in &patterns(1000) {
        let p = Single { bits: a };
        if !p.is_nan() {
            let r = p.clamp(low, high);
            assert!(r.ge(low) && high.ge(r));
        }
    }
}

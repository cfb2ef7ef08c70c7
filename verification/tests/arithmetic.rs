use racing_pedal_overlay::single::Single;
use racing_pedal_overlay::single::QUIET_NAN;

fn single(x: f32) -> Single {
    Single { bits: x.to_bits() }
}

fn same(ours: Single, theirs: f32) -> bool {
    if theirs.is_nan() {
        ours.bits == QUIET_NAN
    } else {
        ours.bits == theirs.to_bits()
    }
}

struct Source {
    state: u64,
}

impl Source {
    fn next(&mut self) -> u32 {
        self.state = self.state.wrapping_mul(6364136223846793005).wrapping_add(1442695040888963407);
        (self.state >> 32) as u32
    }

    /// Any pattern, or one whose exponent is near that of another.
    fn pair(&mut self) -> (u32, u32) {
        let a = self.next();
        let b = self.next();
        if b % 3 == 0 {
            (a, b)
        } else {
            let exponent = (a >> 23) & 0xFF;
            let near = (exponent + self.next() % 60).saturating_sub(30).min(255);
            (a, (b & 0x807F_FFFF) | (near << 23))
        }
    }
}

const EDGES: [f32; 20] = [
    0.0,
    -0.0,
    1.0,
    -1.0,
    0.5,
    3.0,
    -1.5,
    0.1,
    1.0e-45,
    -1.0e-45,
    1.1754944e-38,
    1.1754942e-38,
    3.4028235e38,
    -3.4028235e38,
    f32::INFINITY,
    f32::NEG_INFINITY,
    f32::NAN,
    16777216.0,
    16777215.0,
    0.99999994,
];

fn check_pair(a: u32, b: u32) {
    let (x, y) = (f32::from_bits(a), f32::from_bits(b));
    let (p, q) = (Single { bits: a }, Single { bits: b });
    assert!(same(p.minus(q), x - y), "{x:e} - {y:e}");
    assert!(same(p.plus(q), x + y), "{x:e} + {y:e}");
    assert!(same(p.times(q), x * y), "{x:e} * {y:e}");
    assert!(same(p.over(q), x / y), "{x:e} / {y:e}");
}

#[test]
fn operations_agree_with_the_hardware_on_edges() {
    for &x in &EDGES {
        for &y in &EDGES {
            check_pair(x.to_bits(), y.to_bits());
        }
    }
}

#[test]
fn operations_agree_with_the_hardware_everywhere() {
    let mut source = Source { state: 1 };
    for _ in 0..60_000 {
        let (a, b) = source.pair();
        check_pair(a, b);
    }
}

#[test]
fn whole_numbers_agree_with_the_hardware() {
    let mut source = Source { state: 2 };
    for n in 0..70_000u32 {
        assert_eq!(Single::from_whole(n).bits, (n as f32).to_bits());
    }
    for _ in 0..20_000 {
        let n = source.next();
        assert_eq!(Single::from_whole(n).bits, (n as f32).to_bits());
    }
    assert_eq!(Single::from_whole(u32::MAX).bits, 4294967296.0f32.to_bits());
}

#[test]
fn shares_agree_with_double_precision() {
    let mut source = Source { state: 3 };
    for i in 0..60_000u32 {
        let whole = (source.next() >> (i % 30)).max(2);
        let part = (source.next() % whole).max(1);
        let expected = (part as f64 / whole as f64) as f32;
        assert_eq!(Single::share(part, whole).bits, expected.to_bits(), "{part} / {whole}");
    }
    assert_eq!(Single::share(1, 3), single(0.333_333_34));
    assert_eq!(Single::share(1, u32::MAX).bits, ((1.0f64 / 4294967295.0) as f32).to_bits());
}

#[test]
fn shares_are_rounded_twice() {
    // In double precision the quotient is halfway between two singles; it is not itself.
    assert_eq!(Single::share(545259552, 1090519039), single(0.5));
    assert_eq!(Single::share(545259552, 1090519039).bits, ((545259552.0f64 / 1090519039.0) as f32).to_bits());
}

#[test]
fn shares_grow_with_the_part() {
    let mut last = single(0.0);
    for part in 1..9999 {
        let share = Single::share(part, 9999);
        assert!(share.ge(last) && single(1.0).ge(share));
        if 2 * part <= 9999 {
            assert!(single(0.5).ge(share));
        }
        last = share;
    }
}

#[test]
fn difference_of_a_number_and_itself_is_zero() {
    for &x in &EDGES {
        if x.is_finite() {
            assert_eq!(single(x).minus(single(x)).bits, 0);
        }
    }
    assert!(single(f32::INFINITY).minus(single(f32::INFINITY)).is_nan());
}

#[test]
fn difference_mirrors() {
    let mut source = Source { state: 4 };
    for _ in 0..5_000 {
        let (a, b) = source.pair();
        let (p, q) = (Single { bits: a }, Single { bits: b });
        let d = p.minus(q);
        if !d.is_nan() && (p.gt(q) || q.gt(p)) {
            assert_eq!(q.minus(p), d.negate());
        }
    }
}

#[test]
fn half_of_the_smallest_number_is_zero() {
    assert_eq!(single(1.0e-45).times(single(0.5)).bits, 0);
    assert_eq!(single(-1.0e-45).times(single(0.5)).bits, (-0.0f32).to_bits());
    assert_eq!(single(3.0e-45).times(single(0.5)).bits, single(1.0e-45).bits);
    assert_eq!(single(0.3).times(single(0.5)), single(0.15));
}

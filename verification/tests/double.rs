use zkbench::double::Double;

fn value(d: Double) -> f64 {
    d.significand as f64 * 2f64.powi(d.exponent)
}

struct Numbers(u64);

impl Numbers {
    fn next(&mut self) -> u64 {
        self.0 = self.0.wrapping_mul(6364136223846793005).wrapping_add(1442695040888963407);
        let x = self.0 ^ (self.0 >> 29);
        x >> (x % 61)
    }
}

fn interesting() -> Vec<u64> {
    let mut v = vec![
        0, 1, 2, 3, 5, 7, 10, 16, 20, 23, 24, 33, 48, 66, 99, 100, 1000, 1023, 1024, 1025,
        (1 << 53) - 1, 1 << 53, (1 << 53) + 1, (1 << 53) + 2, (1 << 53) + 3, (1 << 54) + 2,
        (1 << 54) + 6, u64::MAX, u64::MAX - 1, u64::MAX - 1023, u64::MAX - 1024, 1 << 63,
    ];
    let mut n = Numbers(42);
    for _ in 0..300 {
        v.push(n.next());
    }
    v
}

#[test]
fn integers_round_as_the_hardware_rounds() {
    for n in interesting() {
        assert_eq!(value(Double::from_integer(n)), n as f64, "{n}");
    }
}

#[test]
fn quotients_round_as_the_hardware_rounds() {
    for a in interesting() {
        for b in interesting() {
            if b == 0 {
                continue;
            }
            let q = Double::from_integer(a).over(Double::from_integer(b));
            let want = a as f64 / b as f64;
            assert_eq!(value(q), want, "{a} / {b}");
            assert_eq!(q.reaches(Double::from_fraction(66, 100)), want >= 0.66, "{a} / {b}");
            assert_eq!(q.reaches(Double::from_fraction(33, 100)), want >= 0.33, "{a} / {b}");
            for k in [0u32, 1, 7, 24, 100] {
                let p = q.times(k);
                let product = want * k as f64;
                assert_eq!(value(p), product, "{a} / {b} * {k}");
                let filled = (product.round() as usize).min(24);
                assert_eq!(p.round_at_most(24) as usize, filled, "{a} / {b} * {k}");
            }
        }
    }
}

#[test]
fn decimals_round_as_formatting_rounds() {
    for a in interesting() {
        for b in interesting() {
            if b == 0 {
                continue;
            }
            let q = Double::from_integer(a).over(Double::from_integer(b));
            let want = a as f64 / b as f64;
            let tenths = zkbench::text::decimal_tenths(q.to_units(10));
            assert_eq!(tenths, format!("{want:.1}"), "{a} / {b}");
            let hundredths = zkbench::text::decimal_hundredths(q.to_units(100));
            assert_eq!(hundredths, format!("{want:.2}"), "{a} / {b}");
        }
    }
}

#[test]
fn ties_go_to_even() {
    assert_eq!(value(Double::from_integer((1 << 53) + 1)), 9007199254740992.0);
    assert_eq!(value(Double::from_integer((1 << 53) + 3)), 9007199254740996.0);
    let q = Double::from_integer(5).over(Double::from_integer(4));
    assert_eq!(q.to_units(10), 12);
    let q = Double::from_integer(23).over(Double::from_integer(20));
    assert_eq!(q.to_units(10), 11);
}

#[test]
fn zero_stays_zero() {
    let z = Double::zero();
    assert_eq!(z.over(Double::from_integer(3)), z);
    assert_eq!(z.times(24), z);
    assert_eq!(z.round(), 0);
    assert!(!z.reaches(Double::from_integer(1)));
    assert!(z.reaches(z));
}

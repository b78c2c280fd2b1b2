use rstate::JsonNumber;

fn as_i64(n: &JsonNumber) -> Option<i64> {
    match *n {
        JsonNumber::PosInt(v) => {
            if v <= i64::MAX as u64 {
                Some(v as i64)
            } else {
                None
            }
        }
        JsonNumber::NegInt(v) => Some(v),
        JsonNumber::Float(_) => None,
    }
}

fn as_f64(n: &JsonNumber) -> f64 {
    match *n {
        JsonNumber::PosInt(v) => v as f64,
        JsonNumber::NegInt(v) => v as f64,
        JsonNumber::Float(bits) => f64::from_bits(bits),
    }
}

fn expected(a: &JsonNumber, b: &JsonNumber) -> bool {
    match (as_i64(a), as_i64(b)) {
        (Some(x), Some(y)) => x == y,
        _ => (as_f64(a) - as_f64(b)).abs() < f64::EPSILON,
    }
}

fn float(v: f64) -> JsonNumber {
    JsonNumber::from_f64_bits(v.to_bits()).unwrap()
}

fn neighbours(v: f64) -> Vec<f64> {
    let bits = v.to_bits();
    let mut out = vec![v, -v];
    for step in [1u64, 2, 3] {
        if bits >= step {
            out.push(f64::from_bits(bits - step));
            out.push(-f64::from_bits(bits - step));
        }
        let up = f64::from_bits(bits + step);
        if up.is_finite() {
            out.push(up);
            out.push(-up);
        }
    }
    out
}

fn interesting_floats() -> Vec<f64> {
    let mut seeds = vec![
        0.0,
        f64::MIN_POSITIVE,
        f64::from_bits(1),
        f64::from_bits(0x000F_FFFF_FFFF_FFFF),
        f64::EPSILON,
        f64::EPSILON / 2.0,
        f64::EPSILON / 4.0,
        f64::EPSILON * 2.0,
        f64::EPSILON * 4.0,
        f64::EPSILON * 8.0,
        0.1,
        0.2,
        0.3,
        0.1 + 0.2,
        0.5,
        1.0,
        1.0 + f64::EPSILON,
        1.5,
        2.0,
        3.0,
        4.0,
        42.0,
        1e-20,
        2e-20,
        1e-300,
        1e15,
        9007199254740992.0,
        9223372036854775808.0,
        18446744073709551616.0,
        1e300,
        f64::MAX,
    ];
    for e in [-110, -107, -106, -105, -104, -60, -55, -54, -53, -52, -51, -50] {
        seeds.push(2f64.powi(e));
        seeds.push(1.5 * 2f64.powi(e));
        seeds.push(f64::EPSILON + 2f64.powi(e));
        seeds.push(f64::EPSILON - 2f64.powi(e));
    }
    let mut out = Vec::new();
    for s in seeds {
        out.extend(neighbours(s));
    }
    out
}

fn interesting_numbers() -> Vec<JsonNumber> {
    let mut out: Vec<JsonNumber> = interesting_floats().into_iter().map(float).collect();
    for v in [
        0u64,
        1,
        2,
        42,
        (1 << 53) - 1,
        1 << 53,
        (1 << 53) + 1,
        (1 << 53) + 2,
        (1 << 53) + 3,
        (1 << 54) + 2,
        (1 << 54) + 6,
        (1 << 62) + 256,
        (1 << 63) - 1025,
        (1 << 63) - 1024,
        (1 << 63) - 513,
        (1 << 63) - 512,
        (1 << 63) - 1,
        1 << 63,
        (1 << 63) + 1,
        (1 << 63) + 1024,
        (1 << 63) + 1025,
        (1 << 63) + 2048,
        (1 << 63) + 3072,
        (1 << 63) + 3073,
        u64::MAX - 2048,
        u64::MAX - 1024,
        u64::MAX - 1023,
        u64::MAX,
    ] {
        out.push(JsonNumber::from_u64(v));
    }
    for v in [
        -1i64,
        -2,
        -42,
        -(1 << 53),
        -(1 << 53) - 1,
        -(1 << 53) - 3,
        i64::MIN,
        i64::MIN + 1,
        i64::MIN + 512,
        i64::MIN + 513,
        i64::MIN + 1024,
    ] {
        out.push(JsonNumber::from_i64(v));
    }
    out
}

#[test]
fn numbers_match_as_the_rounded_difference_of_doubles_says() {
    let numbers = interesting_numbers();
    let mut close = 0usize;
    for a in &numbers {
        for b in &numbers {
            assert_eq!(a.matches(b), expected(a, b), "{:?} against {:?}", a, b);
            if a.matches(b) {
                close += 1;
            }
        }
    }
    assert!(close > numbers.len());
    assert!(close < numbers.len() * numbers.len());
}

#[test]
fn every_number_matches_itself_and_matching_has_no_direction() {
    let numbers = interesting_numbers();
    for a in &numbers {
        assert!(a.matches(a));
        for b in &numbers {
            assert_eq!(a.matches(b), b.matches(a));
        }
    }
}

#[test]
fn integers_match_by_their_value() {
    assert!(JsonNumber::from_i64(7).matches(&JsonNumber::from_u64(7)));
    assert!(!JsonNumber::from_i64(7).matches(&JsonNumber::from_i64(8)));
    assert!(!JsonNumber::from_i64(-7).matches(&JsonNumber::from_i64(7)));
    assert!(!JsonNumber::from_i64(i64::MAX).matches(&JsonNumber::from_i64(i64::MAX - 1)));
    assert!(JsonNumber::NegInt(5).matches(&JsonNumber::PosInt(5)));
}

#[test]
fn integer_and_double_match_within_the_epsilon() {
    assert!(JsonNumber::from_i64(1).matches(&float(1.0)));
    assert!(JsonNumber::from_i64(0).matches(&float(-0.0)));
    assert!(JsonNumber::from_i64(0).matches(&float(1e-17)));
    assert!(!JsonNumber::from_i64(1).matches(&float(1.0 + f64::EPSILON)));
    assert!(JsonNumber::from_i64(1).matches(&float(1.0 - f64::EPSILON / 2.0)));
    assert!(!JsonNumber::from_i64(1).matches(&float(1.5)));
}

#[test]
fn large_unsigned_integers_match_where_they_round_to_one_double() {
    let a = JsonNumber::from_u64((1 << 63) + 1);
    let b = JsonNumber::from_u64((1 << 63) + 2);
    let c = JsonNumber::from_u64((1 << 63) + 4096);
    assert!(a.matches(&b));
    assert!(!a.matches(&c));
    assert!(JsonNumber::from_u64(u64::MAX).matches(&float(18446744073709551616.0)));
}

#[test]
fn doubles_at_the_edge_of_the_epsilon() {
    let eps = f64::EPSILON;
    let below = f64::from_bits(eps.to_bits() - 1);
    assert!(!float(eps).matches(&float(0.0)));
    assert!(float(below).matches(&float(0.0)));
    assert!(!float(eps).matches(&float(2f64.powi(-107))));
    assert!(!float(eps).matches(&float(2f64.powi(-106))));
    assert!(float(eps).matches(&float(2f64.powi(-105))));
    assert!(float(0.1 + 0.2).matches(&float(0.3)));
    assert!(float(1e-20).matches(&float(2e-20)));
    assert!(!float(eps / 2.0).matches(&float(-eps / 2.0)));
    assert!(!float(below / 2.0).matches(&float(-eps / 2.0)));
    let lower = f64::from_bits((eps / 2.0).to_bits() - 2);
    assert!(float(lower).matches(&float(-eps / 2.0)));
}

#[test]
fn construction_and_reading_of_numbers() {
    assert_eq!(JsonNumber::from_i64(-3), JsonNumber::NegInt(-3));
    assert_eq!(JsonNumber::from_i64(3), JsonNumber::PosInt(3));
    assert_eq!(JsonNumber::from_u64(u64::MAX), JsonNumber::PosInt(u64::MAX));
    assert_eq!(JsonNumber::from_f64_bits(1.5f64.to_bits()), Some(JsonNumber::Float(1.5f64.to_bits())));
    assert_eq!(JsonNumber::from_f64_bits(f64::NAN.to_bits()), None);
    assert_eq!(JsonNumber::from_f64_bits(f64::INFINITY.to_bits()), None);
    assert_eq!(JsonNumber::from_f64_bits(f64::NEG_INFINITY.to_bits()), None);
    assert_eq!(JsonNumber::from_f64_bits(f64::MAX.to_bits()), Some(float(f64::MAX)));
    assert_eq!(JsonNumber::PosInt(5).as_i64(), Some(5));
    assert_eq!(JsonNumber::PosInt(u64::MAX).as_i64(), None);
    assert_eq!(JsonNumber::PosInt(i64::MAX as u64).as_i64(), Some(i64::MAX));
    assert_eq!(JsonNumber::NegInt(-5).as_i64(), Some(-5));
    assert_eq!(float(5.0).as_i64(), None);
    assert_eq!(JsonNumber::PosInt(5).as_u64(), Some(5));
    assert_eq!(JsonNumber::NegInt(-5).as_u64(), None);
    assert_eq!(float(5.0).as_u64(), None);
}

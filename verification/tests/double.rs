use ferricast::double::Double;

fn d(x: f64) -> Double {
    Double::from_bits(x.to_bits())
}

#[test]
fn integers_convert_like_casts() {
    let cases: [u64; 14] = [
        0,
        1,
        2,
        3,
        10,
        1_000_000_000,
        (1 << 53) - 1,
        1 << 53,
        (1 << 53) + 1,
        (1 << 53) + 3,
        (1 << 54) + 2,
        u64::MAX / 3,
        u64::MAX - 1024,
        u64::MAX,
    ];
    for n in cases {
        assert_eq!(Double::from_u64(n).to_bits(), (n as f64).to_bits());
    }
}

#[test]
fn signed_integers_convert_like_casts() {
    for x in [0, 1, -1, 7, -8, 1920, -1080, i32::MAX, i32::MIN] {
        assert_eq!(Double::from_i32(x).to_bits(), (x as f64).to_bits());
    }
}

#[test]
fn truncation_saturates() {
    let cases = [
        0.0,
        -0.0,
        0.5,
        -0.5,
        0.999_999,
        1.0,
        1.5,
        2.999,
        1e9,
        123_456_789.75,
        9_007_199_254_740_993.0,
        1.8446744073709550e19,
        1.8446744073709552e19,
        1e300,
        -3.5,
        f64::INFINITY,
        f64::NEG_INFINITY,
        f64::NAN,
        f64::MIN_POSITIVE,
        5e-324,
    ];
    for x in cases {
        assert_eq!(d(x).to_u64(), x as u64, "{x}");
    }
}

#[test]
fn comparisons_agree_with_floats() {
    let values = [
        0.0,
        -0.0,
        1.0,
        -1.0,
        0.5,
        2.0,
        1e-310,
        -1e-310,
        5e-324,
        -5e-324,
        f64::MAX,
        f64::MIN,
        f64::INFINITY,
        f64::NEG_INFINITY,
        f64::NAN,
        -f64::NAN,
    ];
    for a in values {
        for b in values {
            assert_eq!(d(a).less_than(d(b)), a < b);
            assert_eq!(d(a).at_most(d(b)), a <= b);
            assert_eq!(d(a).equals(d(b)), a == b);
        }
    }
}

#[test]
fn small_integers_survive_the_round_trip() {
    for n in [0u64, 1, 41_666_666, 3_600_000_000_000, (1 << 53) - 1] {
        assert_eq!(Double::from_u64(n).to_u64(), n);
    }
}

#[test]
fn conversion_keeps_the_order() {
    let mut last = Double::from_u64(0);
    for n in [1u64, 2, (1 << 53) - 1, 1 << 53, (1 << 53) + 1, (1 << 53) + 2, (1 << 54) + 1, u64::MAX] {
        let next = Double::from_u64(n);
        assert!(last.at_most(next));
        last = next;
    }
}

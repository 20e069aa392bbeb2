use pathtracer::keys::{coordinate_bits, coordinate_key, distance_bits, distance_key, SIGN};

fn samples() -> Vec<f64> {
    vec![
        f64::NEG_INFINITY,
        f64::MIN,
        -1.0e300,
        -2.5,
        -1.0,
        -0.001,
        -f64::MIN_POSITIVE,
        -5e-324,
        -0.0,
        0.0,
        5e-324,
        f64::MIN_POSITIVE,
        0.001,
        0.5,
        1.0,
        2.5,
        1.0e300,
        f64::MAX,
        f64::INFINITY,
    ]
}

#[test]
fn keys_of_known_doubles() {
    assert_eq!(coordinate_key(0.0f64.to_bits()), 0);
    assert_eq!(coordinate_key(1.0f64.to_bits()), 0x3FF0_0000_0000_0000);
    assert_eq!(coordinate_key((-1.0f64).to_bits()), -0x3FF0_0000_0000_0000);
    assert_eq!(coordinate_key(f64::INFINITY.to_bits()), 0x7FF0_0000_0000_0000);
    assert_eq!(distance_key(0.0f64.to_bits()), SIGN);
    assert_eq!(distance_key(1.0f64.to_bits()), 0xBFF0_0000_0000_0000);
    assert_eq!(distance_key((-1.0f64).to_bits()), 0x4010_0000_0000_0000);
    assert_eq!(distance_key(f64::INFINITY.to_bits()), 0xFFF0_0000_0000_0000);
    assert_eq!(distance_key(f64::NEG_INFINITY.to_bits()), 0x0010_0000_0000_0000);
}

#[test]
fn both_zeros_have_one_key() {
    assert_eq!(coordinate_key((-0.0f64).to_bits()), coordinate_key(0.0f64.to_bits()));
    assert_eq!(distance_key((-0.0f64).to_bits()), distance_key(0.0f64.to_bits()));
}

#[test]
fn keys_keep_the_order_of_doubles() {
    let all = samples();
    for a in &all {
        for b in &all {
            let (ka, kb) = (coordinate_key(a.to_bits()), coordinate_key(b.to_bits()));
            let (da, db) = (distance_key(a.to_bits()), distance_key(b.to_bits()));
            assert_eq!(a < b, ka < kb, "{} {}", a, b);
            assert_eq!(a == b, ka == kb, "{} {}", a, b);
            assert_eq!(a < b, da < db, "{} {}", a, b);
            assert_eq!(a == b, da == db, "{} {}", a, b);
        }
    }
}

#[test]
fn doubles_come_back_from_their_keys() {
    for a in samples() {
        let back = f64::from_bits(coordinate_bits(coordinate_key(a.to_bits())));
        assert_eq!(back, a);
        let back = f64::from_bits(distance_bits(distance_key(a.to_bits())));
        assert_eq!(back, a);
    }
    assert_eq!(coordinate_bits(coordinate_key((-0.0f64).to_bits())), 0);
    assert_eq!(distance_bits(distance_key((-0.0f64).to_bits())), 0);
    assert_eq!(coordinate_bits(coordinate_key(2.5f64.to_bits())), 2.5f64.to_bits());
    assert_eq!(distance_bits(distance_key((-2.5f64).to_bits())), (-2.5f64).to_bits());
}

#[test]
fn keys_that_belong_to_no_double() {
    assert_eq!(coordinate_bits(i64::MIN), u64::MAX);
    assert_eq!(coordinate_bits(i64::MIN + 1), u64::MAX);
    assert_eq!(distance_bits(0), u64::MAX);
    assert_eq!(distance_bits(1), u64::MAX);
    assert_eq!(coordinate_bits(-1), SIGN + 1);
    assert_eq!(distance_bits(SIGN - 1), SIGN + 1);
}

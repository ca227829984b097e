use raytracer::scalar::Scalar;

fn s(x: f32) -> Scalar {
    Scalar::from_bits(x.to_bits())
}

fn f(x: Scalar) -> f32 {
    f32::from_bits(x.to_bits())
}

fn samples() -> Vec<f32> {
    vec![
        0.0,
        -0.0,
        1.0,
        -1.0,
        0.5,
        -0.5,
        0.001,
        0.999,
        1.0e-8,
        -1.0e-8,
        1.0e-45,
        -1.0e-45,
        3.4028235e38,
        -3.4028235e38,
        f32::INFINITY,
        f32::NEG_INFINITY,
        f32::NAN,
        -f32::NAN,
        1000.0,
        -1000.0,
        255.99,
    ]
}

#[test]
fn comparisons_agree_with_the_hardware() {
    for &a in samples().iter() {
        for &b in samples().iter() {
            assert_eq!(s(a).lt(s(b)), a < b, "{} < {}", a, b);
            assert_eq!(s(a).le(s(b)), a <= b, "{} <= {}", a, b);
            assert_eq!(s(a).gt(s(b)), a > b, "{} > {}", a, b);
            assert_eq!(s(a).ge(s(b)), a >= b, "{} >= {}", a, b);
        }
    }
}

#[test]
fn nan_is_recognised() {
    for &a in samples().iter() {
        assert_eq!(s(a).is_nan(), a.is_nan());
    }
}

#[test]
fn min_and_max_agree_with_the_hardware_in_value() {
    for &a in samples().iter() {
        for &b in samples().iter() {
            let lo = f(s(a).min(s(b)));
            let hi = f(s(a).max(s(b)));
            let want_lo = a.min(b);
            let want_hi = a.max(b);
            assert_eq!(lo.is_nan(), want_lo.is_nan());
            assert_eq!(hi.is_nan(), want_hi.is_nan());
            if !want_lo.is_nan() {
                assert!(lo == want_lo);
            }
            if !want_hi.is_nan() {
                assert!(hi == want_hi);
            }
        }
    }
}

#[test]
fn min_and_max_do_not_depend_on_the_order_of_the_arguments() {
    for &a in samples().iter() {
        for &b in samples().iter() {
            assert_eq!(s(a).min(s(b)), s(b).min(s(a)));
            assert_eq!(s(a).max(s(b)), s(b).max(s(a)));
        }
    }
}

#[test]
fn min_of_the_two_zeros_is_the_negative_one() {
    assert_eq!(s(0.0).min(s(-0.0)).to_bits(), 0x8000_0000);
    assert_eq!(s(-0.0).min(s(0.0)).to_bits(), 0x8000_0000);
    assert_eq!(s(0.0).max(s(-0.0)).to_bits(), 0);
    assert_eq!(s(-0.0).max(s(0.0)).to_bits(), 0);
}

#[test]
fn negation_and_absolute_value_agree_with_the_hardware() {
    for &a in samples().iter() {
        assert_eq!(s(a).neg().to_bits(), (-a).to_bits());
        assert_eq!(s(a).abs().to_bits(), a.abs().to_bits());
    }
}

#[test]
fn constants_have_the_right_values() {
    assert_eq!(f(Scalar::zero()), 0.0);
    assert_eq!(f(Scalar::one()), 1.0);
    assert_eq!(f(Scalar::infinity()), f32::INFINITY);
    assert_eq!(Scalar::zero().to_bits(), 0);
}

#[test]
fn sort_key_orders_numbers_and_puts_nan_last() {
    let mut values: Vec<f32> = samples().into_iter().filter(|x| !x.is_nan()).collect();
    values.sort_by(|a, b| a.partial_cmp(b).unwrap());
    for w in values.windows(2) {
        assert!(s(w[0]).sort_key() <= s(w[1]).sort_key());
        assert_eq!(s(w[0]).sort_key() == s(w[1]).sort_key(), w[0] == w[1]);
    }
    assert!(s(f32::NAN).sort_key() > s(f32::INFINITY).sort_key());
    assert_eq!(s(f32::NAN).sort_key(), s(-f32::NAN).sort_key());
}

#[test]
fn rank_of_one_is_its_bit_pattern() {
    assert_eq!(s(1.0).rank_value(), 0x3f80_0000);
    assert_eq!(s(-1.0).rank_value(), -0x3f80_0000);
    assert_eq!(s(-0.0).rank_value(), 0);
}

#[test]
fn floor_agrees_with_the_hardware() {
    let mut values = samples();
    values.extend_from_slice(&[
        0.999_999_9,
        -0.999_999_9,
        1.5,
        -1.5,
        2.0,
        -2.0,
        8388607.5,
        -8388607.5,
        8388608.0,
        16777216.0,
        -16777216.0,
        2147483520.0,
        -2147483520.0,
        2147483648.0,
        -2147483648.0,
        -2147483904.0,
        4294967296.0,
        1.0e20,
        -1.0e20,
        123456.789,
        -123456.789,
    ]);
    for &x in values.iter() {
        assert_eq!(s(x).floor_to_i32(), x.floor() as i32, "{}", x);
    }
}

#[test]
fn floor_agrees_with_the_hardware_on_many_bit_patterns() {
    let mut bits: u32 = 0x1234_5678;
    for _ in 0..200_000 {
        bits = bits.wrapping_mul(1_664_525).wrapping_add(1_013_904_223);
        let x = f32::from_bits(bits);
        assert_eq!(s(x).floor_to_i32(), x.floor() as i32, "{:#x}", bits);
    }
    for exponent in 0..=255u32 {
        for &fraction in [0u32, 1, 0x40_0000, 0x7f_ffff].iter() {
            for sign in 0..2u32 {
                let x = f32::from_bits((sign << 31) | (exponent << 23) | fraction);
                assert_eq!(s(x).floor_to_i32(), x.floor() as i32);
            }
        }
    }
}

#[test]
fn floor_of_known_values() {
    assert_eq!(s(2.5).floor_to_i32(), 2);
    assert_eq!(s(-2.5).floor_to_i32(), -3);
    assert_eq!(s(-0.0).floor_to_i32(), 0);
    assert_eq!(s(-1.0e-30).floor_to_i32(), -1);
    assert_eq!(s(7.0).floor_to_i32(), 7);
    assert_eq!(s(-7.0).floor_to_i32(), -7);
    assert_eq!(s(f32::NAN).floor_to_i32(), 0);
    assert_eq!(s(f32::INFINITY).floor_to_i32(), i32::MAX);
    assert_eq!(s(f32::NEG_INFINITY).floor_to_i32(), i32::MIN);
}

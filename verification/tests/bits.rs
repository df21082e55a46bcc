use gridfit::bits::{F32, INFINITY_BITS, MAX_FINITE_BITS, SIGN_BIT};

fn f(v: f32) -> F32 {
    F32(v.to_bits())
}

#[test]
fn constants_are_the_patterns_they_name() {
    assert_eq!(INFINITY_BITS, f32::INFINITY.to_bits());
    assert_eq!(MAX_FINITE_BITS, f32::MAX.to_bits());
    assert_eq!(SIGN_BIT, (-0.0f32).to_bits());
}

#[test]
fn saturate_keeps_finite_values() {
    for v in [0.0f32, -0.0, 1.0, -1.0, 1.5e-40, f32::MIN_POSITIVE, f32::MAX, f32::MIN] {
        assert_eq!(f(v).saturate(), f(v));
    }
}

#[test]
fn saturate_replaces_nan_and_infinities() {
    let max = F32(MAX_FINITE_BITS);
    assert_eq!(f(f32::NAN).saturate(), max);
    assert_eq!(f(-f32::NAN).saturate(), max);
    assert_eq!(f(f32::INFINITY).saturate(), max);
    assert_eq!(f(f32::NEG_INFINITY).saturate(), max);
    assert_eq!(F32(0x7FC0_1234).saturate(), max);
    assert_eq!(F32(0xFF80_0001).saturate(), max);
}

#[test]
fn saturated_values_are_finite_numbers() {
    for bits in [0u32, 1, 0x7F7F_FFFF, 0x7F80_0000, 0x7F80_0001, 0xFFFF_FFFF, 0xFF80_0000] {
        let s = F32(bits).saturate();
        assert!(s.is_finite());
        assert!(!s.is_nan());
        assert!(f32::from_bits(s.0).is_finite());
    }
}

#[test]
fn classification_agrees_with_the_numbers() {
    let values = [
        0.0f32,
        -0.0,
        1.0,
        -2.5,
        f32::MAX,
        f32::MIN,
        f32::INFINITY,
        f32::NEG_INFINITY,
        f32::NAN,
        1.0e-45,
    ];
    for v in values {
        assert_eq!(f(v).is_nan(), v.is_nan());
        assert_eq!(f(v).is_finite(), v.is_finite());
    }
}

#[test]
fn lt_agrees_with_the_numeric_order() {
    let values = [
        f32::NEG_INFINITY,
        f32::MIN,
        -3.5f32,
        -1.0,
        -1.0e-40,
        -0.0,
        0.0,
        1.0e-45,
        0.5,
        1.0,
        2.0,
        f32::MAX,
        f32::INFINITY,
    ];
    for a in values {
        for b in values {
            assert_eq!(f(a).lt(f(b)), a < b, "{} < {}", a, b);
        }
    }
}

#[test]
fn key_of_some_values() {
    assert_eq!(f(0.0).key(), 0);
    assert_eq!(f(-0.0).key(), 0);
    assert_eq!(f(1.0).key(), 0x3F80_0000);
    assert_eq!(f(-1.0).key(), -0x3F80_0000);
    assert_eq!(F32(MAX_FINITE_BITS).key(), 0x7F7F_FFFF);
}

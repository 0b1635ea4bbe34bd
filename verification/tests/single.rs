use balloons::single::Single;

fn s(v: f32) -> Single {
    Single { bits: v.to_bits() }
}

fn samples() -> Vec<f32> {
    let mut v = vec![
        0.0,
        -0.0,
        1.0,
        -1.0,
        0.5,
        -0.5,
        f32::MIN_POSITIVE,
        -f32::MIN_POSITIVE,
        f32::from_bits(1),
        f32::from_bits(0x8000_0001),
        f32::from_bits(0x007f_ffff),
        f32::MAX,
        f32::MIN,
        f32::INFINITY,
        f32::NEG_INFINITY,
        f32::NAN,
        800.0,
        799.99994,
        600.0,
        40.0,
        39.999996,
        790.00006,
    ];
    let mut bits: u32 = 12345;
    for _ in 0..200 {
        bits = bits.wrapping_mul(1664525).wrapping_add(1013904223);
        v.push(f32::from_bits(bits));
    }
    v
}

#[test]
fn halves_are_the_numbers_they_stand_for() {
    for n in [-16777215i32, -800, -3, -2, -1, 0, 1, 2, 3, 7, 49, 50, 1199, 1600, 16777215] {
        assert_eq!(Single::halves(n), s(n as f32 / 2.0));
    }
    for n in -2000..2000 {
        assert_eq!(Single::halves(n).bits, (n as f32 / 2.0).to_bits());
    }
    assert_eq!(Single::halves(50).bits, 0x41c8_0000);
}

#[test]
fn order_is_that_of_the_numbers() {
    let v = samples();
    for &a in &v {
        for &b in &v {
            assert_eq!(s(a).lt(s(b)), a < b, "{} < {}", a, b);
        }
    }
}

#[test]
fn comparisons_with_half_numbers() {
    for &a in &samples() {
        for n in [-1600, -3, -1, 0, 1, 2, 80, 1199, 1200, 1580, 1600] {
            let h = n as f32 / 2.0;
            assert_eq!(s(a).lt_halves(n), a < h);
            assert_eq!(s(a).gt_halves(n), a > h);
            assert_eq!(s(a).ge_halves(n), a >= h);
        }
    }
}

#[test]
fn negation_turns_the_sign() {
    for &a in &samples() {
        assert_eq!(s(a).nan(), a.is_nan());
        if !a.is_nan() {
            assert_eq!(s(a).neg().bits, (a * -1.0).to_bits());
        }
        assert_eq!(s(a).neg().neg(), s(a));
    }
}

use murmur::single::Single;

#[test]
fn numbers_decode_from_their_single_precision_bits() {
    for x in [0.0f32, 1.0, 0.5, 3.25, 100.0, 1e-40, 3.4e38, 1e-45] {
        let s = Single::from_bits(x.to_bits());
        assert_eq!(s.mant as f64 * (s.exp as f64).exp2(), x as f64, "{x}");
    }
    assert!(Single::from_bits(f32::INFINITY.to_bits()).is_infinite());
    assert_eq!(Single::from_bits(f32::NAN.to_bits()).mant, 0);
    assert_eq!(Single::from_bits((-1.0f32).to_bits()).mant, 0);
}

#[test]
fn division_and_multiplication_round_as_single_precision_does() {
    let mut seed = 3u64;
    for _ in 0..20_000 {
        seed = seed.wrapping_mul(6_364_136_223_846_793_005).wrapping_add(1_442_695_040_888_963_407);
        let a = ((seed >> 40) as u32) as f32 / 64.0 + 0.25;
        let b = ((seed >> 17) as u16) as f32 / 16.0 + 0.5;
        let x = Single::from_bits(a.to_bits());
        let y = Single::from_bits(b.to_bits());
        let q = x.over(y);
        assert_eq!(q.mant as f64 * (q.exp as f64).exp2(), (a / b) as f64, "{a} / {b}");
        let p = x.times(y);
        assert_eq!(p.mant as f64 * (p.exp as f64).exp2(), (a * b) as f64, "{a} * {b}");
    }
}

#[test]
fn numbers_compare_as_floating_point_does() {
    let values = [0.0f32, 1e-45, 1e-40, f32::MIN_POSITIVE, 1e-7, 0.49999997, 0.5, 0.50000006, 1.0, 3.0, 1e30, f32::MAX, f32::INFINITY];
    for a in values {
        for b in values {
            let (x, y) = (Single::from_bits(a.to_bits()), Single::from_bits(b.to_bits()));
            assert_eq!(x.is_below(y), a < b, "{a} {b}");
        }
    }
}

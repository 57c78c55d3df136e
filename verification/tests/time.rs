use murmur::time::{Millis, Span};

#[test]
fn since_saturates_on_reordered_clocks() {
    assert_eq!(Millis(5).since(Millis(9)), Millis(0));
}

#[test]
fn display_switches_unit_at_ten_seconds() {
    assert_eq!(Millis(450).to_text(), "450ms");
    assert_eq!(Millis(9_999).to_text(), "9999ms");
    assert_eq!(Millis(12_500).to_text(), "12.5s");
}

#[test]
fn arithmetic_on_moments_saturates() {
    assert_eq!(Millis(7) + Millis(5), Millis(12));
    assert_eq!(Millis(u64::MAX) + Millis(5), Millis(u64::MAX));
    assert_eq!(Millis(7) - Millis(9), Millis(0));
    let mut total = Millis(3);
    total += Millis(4);
    assert_eq!(total, Millis(7));
    assert_eq!(Millis::from_secs(3), Millis(3_000));
}

/// What single-precision division and formatting make of a time.
fn shown(ms: u64) -> String {
    if ms >= 10_000 {
        format!("{:.1}s", ms as f32 / 1000.0)
    } else {
        format!("{ms}ms")
    }
}

#[test]
fn times_read_as_single_precision_rounds_them() {
    for ms in (0..200_000u64).chain((0..64).map(|b| (1u64 << b) - 1)).chain([u64::MAX, u64::MAX - 1]) {
        assert_eq!(Millis(ms).to_text(), shown(ms), "{ms}");
    }
    let mut ms = 12_345u64;
    for _ in 0..20_000 {
        ms = ms.wrapping_mul(6_364_136_223_846_793_005).wrapping_add(1_442_695_040_888_963_407);
        let value = ms >> (ms % 60);
        assert_eq!(Millis(value).to_text(), shown(value), "{value}");
    }
}

#[test]
fn a_length_in_seconds_is_what_single_precision_makes_of_it() {
    let mut seed = 99u64;
    for _ in 0..20_000 {
        seed = seed.wrapping_mul(6_364_136_223_846_793_005).wrapping_add(1);
        let secs = (seed >> 20) >> (seed % 44);
        let nanos = ((seed >> 7) % 1_000_000_000) as u32;
        let span = Span { secs, nanos };
        let single = span.as_secs();
        let value = single.mant as f64 * (single.exp as f64).exp2();
        let exact = std::time::Duration::new(secs, nanos).as_secs_f32();
        assert_eq!(value, exact as f64, "{secs} {nanos}");
    }
}

#[test]
fn lengths_of_time_add_up_and_convert() {
    let a = Span { secs: 1, nanos: 700_000_000 };
    let b = Span { secs: 2, nanos: 600_000_000 };
    assert_eq!(a.plus(b), Span { secs: 4, nanos: 300_000_000 });
    assert_eq!(Span::from_millis(1_250), Span { secs: 1, nanos: 250_000_000 });
    assert_eq!(Span::from_nanos(a.as_nanos()), a);
}

#[test]
fn milliseconds_in_seconds_are_the_single_precision_quotient() {
    for ms in [0u64, 1, 999, 1_500, 12_345, 16_777_217, 123_456_789_012, u64::MAX] {
        let s = Millis(ms).as_secs();
        let expected = ms as f32 / 1000.0;
        assert_eq!((s.mant as f64 * (s.exp as f64).exp2()) as f32, expected, "{ms}");
    }
}

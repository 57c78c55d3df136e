use murmur::session::Latency;
use murmur::single::Single;
use murmur::stats::Stats;
use murmur::time::{Millis, Span};

fn percent(p: f32) -> Single {
    Single::from_bits(p.to_bits())
}

fn value(s: Single) -> f64 {
    s.mant as f64 * (s.exp as f64).exp2()
}

fn latency(release_to_text: u64) -> Latency {
    Latency {
        speaking: Millis(1_000),
        transcribe: Millis(release_to_text / 2),
        inject: Millis(release_to_text / 2),
        release_to_text: Millis(release_to_text),
    }
}

fn stats_of(values: &[u64]) -> Stats {
    let mut stats = Stats::default();
    for v in values {
        stats.record_latency(latency(*v));
    }
    stats
}

#[test]
fn an_empty_report_says_so_rather_than_showing_zeros() {
    assert_eq!(Stats::default().summary(), "no utterances yet");
    assert!(Stats::default().release_to_text(percent(50.0)).is_none());
}

#[test]
fn percentiles_are_real_observed_samples_not_interpolations() {
    let stats = stats_of(&[100, 200, 300, 400]);
    for p in [1.0, 25.0, 50.0, 75.0, 99.0, 100.0] {
        let value = stats.release_to_text(percent(p)).unwrap();
        assert!(
            [100, 200, 300, 400].contains(&value.0),
            "p{p} returned {value:?}, which never happened"
        );
    }
}

#[test]
fn nearest_rank_matches_the_worked_definition() {
    let stats = stats_of(&[10, 20, 30, 40, 50, 60, 70, 80, 90, 100]);
    assert_eq!(stats.release_to_text(percent(50.0)), Some(Millis(50)));
    assert_eq!(stats.release_to_text(percent(90.0)), Some(Millis(90)));
    assert_eq!(stats.release_to_text(percent(100.0)), Some(Millis(100)));
}

#[test]
fn a_single_sample_is_every_percentile() {
    let stats = stats_of(&[42]);
    for p in [0.0, 50.0, 99.0, 100.0] {
        assert_eq!(stats.release_to_text(percent(p)), Some(Millis(42)), "p{p}");
    }
}

#[test]
fn the_tail_is_reported_rather_than_averaged_away() {
    let mut values = vec![100u64; 99];
    values.push(4_000);
    let stats = stats_of(&values);
    assert_eq!(stats.release_to_text(percent(50.0)), Some(Millis(100)));
    assert_eq!(
        stats.release_to_text(percent(100.0)),
        Some(Millis(4_000)),
        "outlier must survive"
    );
}

#[test]
fn ordering_of_arrival_does_not_change_any_percentile() {
    let ascending = stats_of(&[10, 20, 30, 40, 50]);
    let descending = stats_of(&[50, 40, 30, 20, 10]);
    for p in [50.0, 90.0, 100.0] {
        assert_eq!(ascending.release_to_text(percent(p)), descending.release_to_text(percent(p)));
    }
}

#[test]
fn the_realtime_factor_relates_audio_to_inference() {
    let mut stats = Stats::default();
    stats.record_audio(Span { secs: 10, nanos: 0 }, Span::from_millis(100));
    assert!((value(stats.realtime_factor().unwrap()) - 100.0).abs() < 1e-3);
}

#[test]
fn zero_inference_time_reports_no_factor_rather_than_infinity() {
    let mut stats = Stats::default();
    stats.record_audio(Span { secs: 10, nanos: 0 }, Span { secs: 0, nanos: 0 });
    assert!(stats.realtime_factor().is_none());
}

#[test]
fn the_summary_names_the_interval_it_measures() {
    let stats = stats_of(&[120, 130, 140]);
    let summary = stats.summary();
    assert!(summary.contains("release"), "{summary}");
    assert!(summary.contains("p50"), "{summary}");
}

/// The rank that single precision gives a percentile.
fn reference(samples: &[u64], p: f32) -> u64 {
    let mut sorted = samples.to_vec();
    sorted.sort_unstable();
    let rank = (p / 100.0 * sorted.len() as f32).ceil().max(1.0) as usize;
    sorted[rank.min(sorted.len()) - 1]
}

#[test]
fn ranks_follow_single_precision_for_every_percentile() {
    let mut samples = Vec::new();
    let mut seed = 7u64;
    for n in 1..120usize {
        seed = seed.wrapping_mul(6_364_136_223_846_793_005).wrapping_add(1_442_695_040_888_963_407);
        samples.push(seed >> 40);
        let stats = stats_of(&samples);
        for p in [-3.0f32, 0.0, 0.1, 1.0, 12.5, 33.3, 50.0, 66.6, 90.0, 99.0, 99.9, 100.0, 101.0, 1e30] {
            assert_eq!(
                stats.release_to_text(percent(p)),
                Some(Millis(reference(&samples, p))),
                "p{p} of {n}"
            );
        }
        for p in [f32::NAN, f32::INFINITY, f32::NEG_INFINITY, f32::MIN_POSITIVE, 1e-45] {
            assert_eq!(stats.release_to_text(percent(p)), Some(Millis(reference(&samples, p))), "p{p} of {n}");
        }
    }
}

#[test]
fn the_hundredth_percentile_is_the_worst_latency() {
    let stats = stats_of(&[30, 900, 20, 10]);
    assert_eq!(stats.release_to_text(percent(100.0)), Some(Millis(900)));
    assert_eq!(stats.release_to_text(percent(100.0)), stats.release_to_text(Single { mant: 100, exp: 0 }));
}

#[test]
fn the_summary_reads_exactly_as_it_should() {
    let mut stats = stats_of(&[120, 130, 140]);
    stats.record_emission(42);
    stats.record_audio(Span { secs: 12, nanos: 340_000_000 }, Span::from_millis(100));
    assert_eq!(
        stats.summary(),
        "3 utterance(s), 42 chars, 12.3s audio at 123x realtime\nrelease \u{2192} text   p50 130ms p90 140ms p99 140ms\n  of which     transcribe 65ms, inject 65ms (p50)"
    );
    assert_eq!(stats.characters(), 42);
    assert_eq!(stats.utterances(), 3);
}

#[test]
fn a_higher_percentile_is_no_smaller() {
    let values: Vec<u64> = (0..137).map(|i| i * 37 % 101).collect();
    let stats = stats_of(&values);
    let mut previous = Millis(0);
    for step in 0..=400 {
        let current = stats.release_to_text(percent(step as f32 / 4.0)).unwrap();
        assert!(current >= previous, "p{} went backwards", step as f32 / 4.0);
        previous = current;
    }
}

#[test]
fn a_percentile_splits_the_samples_at_its_rank() {
    let values = [70, 10, 50, 50, 20, 90, 50];
    let stats = stats_of(&values);
    for (p, rank) in [(1.0, 1), (25.0, 2), (50.0, 4), (75.0, 6), (100.0, 7)] {
        let at = stats.release_to_text(percent(p)).unwrap().0;
        assert!(values.iter().filter(|v| **v <= at).count() >= rank, "p{p}");
        assert!(values.iter().filter(|v| **v < at).count() < rank, "p{p}");
    }
}

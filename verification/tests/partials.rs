use murmur::mock::Mock;
use murmur::partials::{Partials, Reply, MAX_INTERVAL, MIN_INTERVAL};
use murmur::time::Span;

fn speech() -> Vec<f32> {
    (0..16_000).map(|i| (i as f32 / 40.0).sin() * 0.3).collect()
}

fn reply(took_ms: u64) -> Reply {
    Reply { id: 1, text: "live text".into(), took: Span::from_millis(took_ms) }
}

#[test]
fn audio_offered_comes_back_as_text() {
    let mut mock = Mock::new(vec!["live text".into()]);
    let mut partials = Partials::new();
    let request = partials.offer(1, speech(), false, Span::from_millis(0)).expect("a request");
    assert_eq!(request.samples, speech());
    let quiet = request.samples.iter().all(|s| s.abs() < 1e-6);
    let reply = Reply { id: request.id, text: mock.transcribe(quiet).unwrap(), took: Span::from_millis(1) };
    partials.collect(&[reply.clone()]);
    assert_eq!(reply.text, "live text");
    assert_eq!(reply.id, 1);
}

#[test]
fn offers_inside_the_interval_are_dropped_rather_than_queued() {
    let mut partials = Partials::new();
    let now = Span::from_millis(10_000);
    assert!(partials.offer(1, speech(), false, now).is_some());
    partials.collect(&[reply(1)]);

    // Immediately after: too soon, so nothing new should be produced.
    assert!(partials.offer(1, speech(), false, now).is_none(), "a stale snapshot was queued anyway");
    assert!(partials.offer(1, speech(), false, Span::from_millis(9_000)).is_none(), "the clock ran backwards");
    partials.reset();
    assert!(partials.offer(1, speech(), false, now).is_some());
}

#[test]
fn empty_audio_is_never_sent_to_the_model() {
    let mut partials = Partials::new();
    assert!(partials.offer(1, Vec::<f32>::new(), false, Span::from_millis(0)).is_none());
}

#[test]
fn the_pace_backs_off_in_proportion_to_how_long_a_pass_takes() {
    let mut partials = Partials::new();
    assert_eq!(partials.interval().as_nanos(), MIN_INTERVAL);

    partials.offer(1, speech(), false, Span::from_millis(0));
    partials.collect(&[reply(120)]);

    assert!(
        partials.interval().as_nanos() > MIN_INTERVAL,
        "a 120ms pass should earn a longer gap, got {:?}",
        partials.interval()
    );
    assert_eq!(partials.interval(), Span::from_millis(600));
    assert!(partials.interval().as_nanos() <= MAX_INTERVAL);
}

#[test]
fn the_pace_never_leaves_the_bounds_however_extreme_the_timing() {
    let mut partials = Partials::new();
    for took in [0, 1, 60, 61, 399, 400, 401, 60_000] {
        partials.collect(&[reply(took)]);
        assert!(partials.interval().as_nanos() >= MIN_INTERVAL);
        assert!(partials.interval().as_nanos() <= MAX_INTERVAL);
    }
    assert_eq!(partials.interval(), Span::from_millis(2_000));
}

#[test]
fn a_failing_transcriber_produces_no_partials_and_does_not_wedge_the_worker() {
    let mut failing = Mock::failing();
    let mut partials = Partials::new();
    partials.offer(1, speech(), false, Span::from_millis(0)).expect("a request");
    assert!(failing.transcribe(false).is_err());
    partials.collect(&[]);
    assert_eq!(partials.interval().as_nanos(), MIN_INTERVAL);
    assert!(partials.offer(1, speech(), false, Span::from_millis(300)).is_some());
}

#[test]
fn the_last_reply_sets_the_pace() {
    let mut partials = Partials::new();
    partials.collect(&[reply(500), reply(100)]);
    assert_eq!(partials.interval(), Span::from_millis(500));
}

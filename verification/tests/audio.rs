use earshot::Detector;
use murmur::audio::{
    choose_device, duration_of, find_device, first_match, list_devices, preroll_capacity, AudioError, Capture,
    Chosen, Shared,
};
use murmur::config::TARGET_SAMPLE_RATE;
use murmur::recorder::{Fixture, Recorded};
use murmur::resample::{expected_len, to_target, Cursor, Plan, Step, CHUNK};
use murmur::single::Single;
use murmur::time::Span;
use murmur::vad::{speech_range, FRAME, PAD_FRAMES};
use rubato::audioadapter_buffers::direct::InterleavedSlice;
use rubato::{Fft, FixedSync, Indexing, Resampler};
use std::f32::consts::TAU;
use std::ops::Range;

fn tone(freq: f32, samples: usize) -> Vec<f32> {
    (0..samples).map(|i| (TAU * freq * i as f32 / 16_000.0).sin() * 0.5).collect()
}

fn sine(freq: f32, rate: u32, secs: f32) -> Vec<f32> {
    let n = (rate as f32 * secs) as usize;
    (0..n).map(|i| (TAU * freq * i as f32 / rate as f32).sin()).collect()
}

/// Frequency estimated from zero crossings — robust enough to prove the
/// resampler preserves pitch rather than merely producing the right count.
fn dominant_freq(samples: &[f32], rate: u32) -> f32 {
    let crossings = samples.windows(2).filter(|w| (w[0] < 0.0) != (w[1] < 0.0)).count();
    crossings as f32 * rate as f32 / (2.0 * samples.len() as f32)
}

fn single(value: f32) -> Single {
    Single::from_bits(value.to_bits())
}

fn frame_scores(samples: &[f32]) -> Vec<f32> {
    let mut detector = Detector::default_boxed();
    samples
        .chunks_exact(FRAME)
        .map(|chunk| {
            let frame: Vec<f32> = chunk.iter().map(|s| s.clamp(-1.0, 1.0)).collect();
            detector.predict_f32(&frame)
        })
        .collect()
}

fn range_of(samples: &[f32], threshold: f32) -> Range<usize> {
    let scores: Vec<Single> = frame_scores(samples).into_iter().map(single).collect();
    speech_range(samples.len(), &scores, single(threshold))
}

/// The resampler, driven by the plan and the cursor.
fn resampled(input: &[f32], rate: u32) -> Result<Vec<f32>, AudioError> {
    let (expected, capacity) = match to_target(input.len(), rate)? {
        Plan::Untouched => return Ok(input.to_vec()),
        Plan::Empty => return Ok(vec![]),
        Plan::Resample { expected, capacity } => (expected, capacity),
    };
    let mut resampler =
        Fft::<f32>::new(rate as usize, TARGET_SAMPLE_RATE as usize, CHUNK, 1, FixedSync::Input).unwrap();
    let mut output = vec![0.0f32; capacity];
    let source = InterleavedSlice::new(input, 1, input.len()).unwrap();
    let mut sink = InterleavedSlice::new_mut(&mut output, 1, capacity).unwrap();
    let mut indexing = Indexing::new();
    let mut cursor = Cursor::new(input.len());
    loop {
        match cursor.step(resampler.input_frames_next()) {
            Step::Whole => {
                let (consumed, produced) =
                    resampler.process_into_buffer(&source, &mut sink, Some(&indexing)).unwrap();
                cursor.advance(consumed, produced);
                indexing.input_offset = cursor.input_offset;
                indexing.output_offset = cursor.written;
            }
            Step::Last { left } => {
                indexing.partial_len = Some(left);
                let (_, produced) =
                    resampler.process_into_buffer(&source, &mut sink, Some(&indexing)).unwrap();
                let keep = cursor.keep(produced, expected);
                output.truncate(keep);
                return Ok(output);
            }
        }
    }
}

#[test]
fn preroll_keeps_only_the_most_recent_window() {
    let mut shared: Shared<f32> = Shared::new(4);
    shared.push(&[1.0, 2.0, 3.0]);
    shared.push(&[4.0, 5.0, 6.0]);
    shared.begin();
    assert_eq!(shared.finish(), vec![3.0, 4.0, 5.0, 6.0]);
}

#[test]
fn recording_captures_everything_without_bound() {
    let mut shared: Shared<f32> = Shared::new(2);
    shared.begin();
    for _ in 0..100 {
        shared.push(&[0.5; 16]);
    }
    assert_eq!(shared.snapshot().unwrap().len(), 1_600);
    assert_eq!(shared.finish().len(), 1_600);
    shared.begin();
    assert!(shared.finish().is_empty(), "recording must not also fill the pre-roll");
}

#[test]
fn a_recording_starts_with_what_came_just_before_it() {
    let mut shared: Shared<u8> = Shared::new(3);
    assert_eq!(shared.snapshot(), None);
    shared.push(&[1, 2, 3, 4, 5]);
    shared.begin();
    shared.push(&[6, 7]);
    assert_eq!(shared.snapshot(), Some(vec![3, 4, 5, 6, 7]));
    shared.discard();
    assert_eq!(shared.snapshot(), None);
    shared.push(&[8]);
    shared.begin();
    assert_eq!(shared.finish(), vec![4, 5, 8], "the last moments before either press");
}

#[test]
fn no_preroll_keeps_nothing_from_before_the_press() {
    let mut shared: Shared<u8> = Shared::new(0);
    shared.push(&[1, 2, 3]);
    shared.begin();
    shared.push(&[4]);
    assert_eq!(shared.finish(), vec![4]);
}

#[test]
fn the_preroll_holds_what_its_milliseconds_come_to() {
    assert_eq!(preroll_capacity(48_000, 300), 14_400);
    assert_eq!(preroll_capacity(44_100, 1), 44);
    assert_eq!(preroll_capacity(16_000, 0), 0);
}

#[test]
fn a_capture_says_how_much_was_trimmed() {
    let audio: Vec<f32> = vec![0.25; 32_000];
    let capture = Capture::trimmed_to(&audio, 8_000, 24_000);
    assert_eq!((capture.samples.len(), capture.trimmed), (16_000, 16_000));
    assert_eq!(capture.duration, Span { secs: 1, nanos: 0 });
    assert!(!capture.is_empty());
    let whole = Capture::whole(audio);
    assert_eq!((whole.samples.len(), whole.trimmed), (32_000, 0));
    let recorded: Recorded<f32> = Recorded::from(whole);
    assert_eq!(recorded.duration, Span { secs: 2, nanos: 0 });
    assert!(Recorded::<f32> { samples: vec![], trimmed: 0, duration: duration_of(0) }.is_empty());
}

#[test]
fn sample_counts_are_measured_in_single_precision() {
    for samples in [0usize, 1, 7, 15_999, 16_000, 16_001, 100_000, 123_457] {
        let expected = std::time::Duration::from_secs_f32(samples as f32 / TARGET_SAMPLE_RATE as f32);
        let got = duration_of(samples);
        assert_eq!((got.secs, got.nanos), (expected.as_secs(), expected.subsec_nanos()), "{samples}");
    }
}

#[test]
fn a_device_is_found_by_any_part_of_its_name() {
    let names = [Some("HDA Analog".to_owned()), None, Some("Yeti Nano".to_owned()), Some("YETI".to_owned())];
    let lowered = [Some("hda".to_owned()), None, Some("yeti nano".to_owned())];
    assert_eq!(first_match(&lowered, "yeti"), Some(2));
    assert_eq!(first_match(&lowered, "Yeti"), None);
    assert_eq!(find_device(&names, "YETI"), Some(2));
    assert_eq!(find_device(&names, "blue"), None);
    assert_eq!(choose_device(&Some("analog".into()), &names, true), Ok(Chosen::Listed(0)));
    assert_eq!(choose_device(&None, &names, true), Ok(Chosen::Default));
    assert!(matches!(choose_device(&None, &names, false), Err(AudioError::NoDevice(_))));
    assert!(matches!(choose_device(&Some("blue".into()), &names, true), Err(AudioError::NoDevice(_))));
    assert_eq!(
        list_devices(&names, &Some("YETI".into())),
        vec!["HDA Analog", "Yeti Nano", "YETI (default)"]
    );
}

#[test]
fn audio_errors_say_what_went_wrong() {
    assert_eq!(AudioError::Device("unplugged".into()).message(), "audio device: unplugged");
    assert_eq!(AudioError::Resample("ratio".into()).message(), "resample: ratio");
    assert_eq!(AudioError::NoDevice("x".into()).message(), "no input device found matching \"x\"");
}

#[test]
fn the_target_rate_is_returned_untouched() {
    let input = sine(440.0, TARGET_SAMPLE_RATE, 0.1);
    assert_eq!(resampled(&input, TARGET_SAMPLE_RATE).unwrap(), input);
}

#[test]
fn empty_input_resamples_to_empty_output() {
    assert!(resampled(&[], 48_000).unwrap().is_empty());
}

#[test]
fn a_zero_sample_rate_is_rejected_rather_than_dividing_by_zero() {
    assert!(resampled(&[0.0; 16], 0).is_err());
}

#[test]
fn output_length_tracks_the_rate_ratio() {
    for rate in [44_100u32, 48_000, 96_000] {
        let input = sine(440.0, rate, 1.0);
        let out = resampled(&input, rate).unwrap();
        let expected = expected_len(input.len(), rate);
        let drift = out.len().abs_diff(expected);
        assert!(drift <= CHUNK, "{rate} Hz: got {} samples, expected ~{expected}", out.len());
    }
}

#[test]
fn a_tone_keeps_its_pitch_across_resampling() {
    for rate in [44_100u32, 48_000] {
        let input = sine(440.0, rate, 1.0);
        let out = resampled(&input, rate).unwrap();
        let freq = dominant_freq(&out[800..out.len() - 800], TARGET_SAMPLE_RATE);
        assert!((freq - 440.0).abs() < 10.0, "{rate} Hz -> 16 kHz shifted 440 Hz to {freq} Hz");
    }
}

#[test]
fn content_above_the_nyquist_limit_does_not_alias_down_into_speech() {
    // 7 kHz survives; 15 kHz cannot be represented at 16 kHz and must be
    // filtered out rather than folded back over the voice band.
    let input = sine(15_000.0, 48_000, 0.5);
    let out = resampled(&input, 48_000).unwrap();
    let energy: f32 = out.iter().map(|s| s * s).sum::<f32>() / out.len() as f32;
    assert!(energy < 0.05, "aliased energy {energy} leaked into the 16 kHz band");
}

#[test]
fn a_plan_leaves_room_for_whole_chunks() {
    assert_eq!(
        to_target(48_000, 48_000),
        Ok(Plan::Resample { expected: 16_000, capacity: 18_048 })
    );
    assert_eq!(expected_len(44_100, 44_100), 16_000);
}

#[test]
fn empty_audio_yields_an_empty_range() {
    assert_eq!(range_of(&[], 0.5), 0..0);
}

#[test]
fn silence_is_never_trimmed_away_entirely() {
    let silence = vec![0.0f32; FRAME * 50];
    assert_eq!(range_of(&silence, 0.5), 0..silence.len());
}

#[test]
fn an_unreachable_threshold_falls_back_to_the_whole_recording() {
    let audio = tone(300.0, FRAME * 40);
    assert_eq!(range_of(&audio, 2.0), 0..audio.len());
}

#[test]
fn a_threshold_of_zero_keeps_everything() {
    let audio = tone(300.0, FRAME * 40);
    let range = range_of(&audio, 0.0);
    assert_eq!(range.start, 0);
    assert!(range.end >= audio.len() - FRAME, "range {range:?} of {}", audio.len());
}

#[test]
fn the_range_is_always_within_bounds_and_ordered() {
    for len in [0, 1, FRAME - 1, FRAME, FRAME * 3 + 7, FRAME * 100] {
        for threshold in [0.0f32, 0.3, 0.5, 0.9] {
            let audio = tone(220.0, len);
            let range = range_of(&audio, threshold);
            assert!(range.start <= range.end, "len {len}: {range:?}");
            assert!(range.end <= audio.len(), "len {len}: {range:?}");
        }
    }
}

#[test]
fn clipped_input_does_not_panic_the_detector() {
    let hot: Vec<f32> = (0..FRAME * 8).map(|i| if i % 2 == 0 { 4.0 } else { -4.0 }).collect();
    let range = range_of(&hot, 0.5);
    assert!(range.end <= hot.len());
}

#[test]
fn speech_is_kept_with_room_on_either_side() {
    assert_eq!(PAD_FRAMES, 6);
    let half = single(0.5);
    let mut scores = vec![single(0.499_999_97); 100];
    scores[20] = half;
    scores[40] = single(0.75);
    assert_eq!(speech_range(FRAME * 100 + 9, &scores, half), FRAME * 14..FRAME * 47);
    scores[2] = single(1.0);
    scores[97] = half;
    assert_eq!(speech_range(FRAME * 100 + 9, &scores, half), 0..FRAME * 100 + 9);
}

#[test]
fn a_fixture_plays_the_same_audio_every_time() {
    let mut fixture = Fixture::of(vec![1u8, 2, 3]);
    assert!(!fixture.is_recording());
    assert!(fixture.snapshot().is_none());
    fixture.begin();
    assert_eq!(fixture.snapshot().unwrap().samples, vec![1, 2, 3]);
    // As long as the samples last, whatever they are.
    assert_eq!(fixture.snapshot().unwrap().duration, Span { secs: 0, nanos: 187_500 });
    assert_eq!(fixture.finish().unwrap().duration, Span { secs: 0, nanos: 187_500 });
    assert!(!fixture.is_recording());
    fixture.begin();
    fixture.discard();
    assert_eq!((fixture.begins, fixture.discards), (2, 1));
    let mut broken = fixture.failing("went away");
    assert_eq!(broken.finish().unwrap_err(), "went away");
}

#[test]
fn a_fixture_lasts_as_long_as_its_samples() {
    for samples in [0usize, 1, 3, 7_999, 16_000, 16_001, 100_003, 1_000_003] {
        let expected = std::time::Duration::from_secs_f32(samples as f32 / 16_000.0);
        let recorded = Fixture::of(vec![0u8; samples]).finish().unwrap();
        let got = (recorded.duration.secs, recorded.duration.nanos);
        assert_eq!(got, (expected.as_secs(), expected.subsec_nanos()), "{samples}");
        assert_eq!((recorded.samples.len(), recorded.trimmed), (samples, 0));
    }
    let mut empty = Fixture::<u8>::default();
    assert!(!empty.is_recording() && empty.finish().unwrap().is_empty());
    assert_eq!((empty.begins, empty.discards), (0, 0));
}

#[test]
fn scores_are_produced_per_whole_frame_and_bounded() {
    let audio = tone(440.0, FRAME * 10 + 5);
    let scores = frame_scores(&audio);
    assert_eq!(scores.len(), 10, "partial trailing frame must not be scored");
    assert!(scores.iter().all(|s| (0.0..=1.0).contains(s)), "{scores:?}");
}

use murmur::asr::{AsrError, Transcript};
use murmur::config::{Accelerator, Precision};
use murmur::cuda::{bundled_dir, ensure_runtime, gpu_usable, registration_failures, Preload, ProviderWatch};
use murmur::mock::Mock;
use murmur::models::{Family, Files, Found, Variant};
use murmur::parakeet::{cuda_availability, label, load, provider_for, Attempt, Provider, Support};
use murmur::single::Single;
use murmur::streaming;
use murmur::time::Span;

fn lines(text: &[&str]) -> Mock {
    Mock::new(text.iter().map(|t| t.to_string()).collect())
}

fn value(s: Single) -> f64 {
    s.mant as f64 * (s.exp as f64).exp2()
}

#[test]
fn scripted_lines_are_returned_in_order_and_then_repeat() {
    let mut mock = lines(&["first", "second"]);
    assert_eq!(mock.transcribe(false).unwrap(), "first");
    assert_eq!(mock.transcribe(false).unwrap(), "second");
    assert_eq!(mock.transcribe(false).unwrap(), "first");
    assert_eq!(mock.clone().transcribe(false).unwrap(), "second");
    assert_eq!(mock.name(), "mock");
}

#[test]
fn silence_transcribes_to_nothing() {
    let mut mock = Mock::default();
    assert_eq!(mock.transcribe(true).unwrap(), "");
    assert_eq!(mock.transcribe(false).unwrap(), "This is Murmur, typing what you say.");
}

#[test]
fn a_failing_transcriber_reports_rather_than_returning_empty_text() {
    assert!(Mock::failing().transcribe(false).is_err());
}

#[test]
fn the_scripted_delay_is_kept() {
    let mock = Mock::default().with_delay(Span::from_millis(30));
    assert_eq!(mock.delay(), Span::from_millis(30));
}

#[test]
fn the_realtime_factor_relates_audio_to_compute() {
    let transcript = Transcript::new("x", Span::from_millis(100));
    assert!((value(transcript.realtime_factor(Span { secs: 1, nanos: 0 })) - 10.0).abs() < 1e-3);
}

#[test]
fn an_instant_transcription_does_not_divide_by_zero() {
    let transcript = Transcript::new("x", Span { secs: 0, nanos: 0 });
    assert!(transcript.realtime_factor(Span { secs: 1, nanos: 0 }).is_infinite());
}

#[test]
fn a_missing_model_directory_is_reported_as_missing_not_as_a_load_failure() {
    let files = Files {
        tokenizer: false,
        encoder: false,
        encoder_weights: false,
        vocabulary: false,
        encoder_model: false,
        encoder_model_int8: false,
    };
    let support = Support { cuda: false, tensorrt: false, cuda_loads: false };
    let error = load(false, "/nonexistent/murmur/model", &files, Accelerator::Cpu, support).unwrap_err();
    assert_eq!(error, AsrError::ModelMissing("/nonexistent/murmur/model".into()));
}

#[test]
fn a_missing_streaming_model_is_reported_as_missing() {
    let only_parakeet = [Variant { dir: "p".into(), kind: Found::Fp32, family: Family::ParakeetTdt }];
    let error =
        streaming::open("/models", &only_parakeet, Precision::Auto, Accelerator::Cpu, false, false).unwrap_err();
    assert_eq!(error, AsrError::ModelMissing("/models".into()));
}

#[test]
fn errors_say_what_went_wrong() {
    assert_eq!(
        AsrError::ModelMissing("/x".into()).message(),
        "model not found at /x; run `murmur models pull` to fetch it"
    );
    assert_eq!(AsrError::Load("bad".into()).message(), "loading model: bad");
    assert_eq!(AsrError::Inference("worse".into()).message(), "transcribing: worse");
}

#[test]
fn a_model_loads_on_what_is_there() {
    let all = Support { cuda: true, tensorrt: true, cuda_loads: true };
    let none = Support { cuda: false, tensorrt: false, cuda_loads: true };
    assert_eq!(provider_for(Accelerator::Cpu, all), (Provider::Cpu, "cpu"));
    assert_eq!(provider_for(Accelerator::Cuda, all), (Provider::Cuda, "cuda"));
    assert_eq!(
        provider_for(Accelerator::Cuda, Support { cuda_loads: false, ..all }),
        (Provider::Cpu, "cpu (cuda unavailable)")
    );
    assert_eq!(provider_for(Accelerator::Cuda, none), (Provider::Cpu, "cpu (cuda not built in)"));
    assert_eq!(provider_for(Accelerator::TensorRt, all), (Provider::TensorRt, "tensorrt"));
    assert_eq!(provider_for(Accelerator::TensorRt, none), (Provider::Cpu, "cpu (tensorrt not built in)"));

    let int8 = Files {
        tokenizer: false,
        encoder: false,
        encoder_weights: false,
        vocabulary: true,
        encoder_model: false,
        encoder_model_int8: true,
    };
    assert_eq!(label(&int8, "cuda"), "parakeet-tdt-0.6b-v3 (int8) on cuda");
    assert_eq!(label(&Files { encoder_model: true, ..int8 }, "cpu"), "parakeet-tdt-0.6b-v3 on cpu");
    assert_eq!(
        load(true, "/m", &int8, Accelerator::Cuda, all),
        Ok((Provider::Cuda, "parakeet-tdt-0.6b-v3 (int8) on cuda".to_owned()))
    );
}

#[test]
fn the_reason_of_a_library_that_exists_is_the_one_reported() {
    let missing = Attempt::Failed { reason: "no such file".into(), exists: false };
    let broken = Attempt::Failed { reason: "libcublasLt.so.13: cannot open shared object file".into(), exists: true };
    assert_eq!(cuda_availability(&[missing.clone(), Attempt::Loaded]), Ok(()));
    assert_eq!(
        cuda_availability(&[broken.clone(), missing.clone()]),
        Err("libcublasLt.so.13: cannot open shared object file".into())
    );
    assert_eq!(
        cuda_availability(&[missing.clone(), broken]),
        Err("libcublasLt.so.13: cannot open shared object file".into())
    );
    assert_eq!(cuda_availability(&[missing]), Err("no such file".into()));
    assert_eq!(cuda_availability(&[]), Err("provider library not found".into()));
}

#[test]
fn the_bundled_directory_lives_under_the_data_home() {
    let dir = bundled_dir(None, Some("/data".into()), Some("/home/me".into()));
    assert!(dir.ends_with("murmur/cuda/lib"), "{dir}");
    assert_eq!(dir, "/data/murmur/cuda/lib");
    assert_eq!(bundled_dir(None, None, Some("/home/me".into())), "/home/me/.local/share/murmur/cuda/lib");
    assert_eq!(bundled_dir(None, None, None), "./murmur/cuda/lib");
}

#[test]
fn an_explicit_directory_overrides_the_default() {
    let dir = bundled_dir(Some("/tmp/murmur-cuda-test".into()), Some("/data".into()), None);
    assert_eq!(dir, "/tmp/murmur-cuda-test");
}

#[test]
fn preloading_a_directory_that_does_not_exist_is_not_an_error() {
    assert_eq!(ensure_runtime(false, &Preload::new(vec![])), 0);
}

#[test]
fn preloading_a_directory_with_no_libraries_loads_nothing() {
    let mut preload = Preload::new(vec!["README".into(), "libcuda.so.stub".into()]);
    assert!(preload.pending().is_empty());
    assert!(!preload.pass(&[]));
    assert_eq!(preload.loaded(), 0);
}

#[test]
fn libraries_load_in_as_many_passes_as_they_need() {
    let mut preload = Preload::new(vec!["libb.so.1".into(), "notes.txt".into(), "liba.so".into(), "libc.so".into()]);
    assert_eq!(*preload.pending(), vec!["liba.so", "libb.so.1", "libc.so"]);
    assert!(preload.pass(&[false, true, false]));
    assert_eq!(*preload.pending(), vec!["liba.so", "libc.so"]);
    assert!(preload.pass(&[true, false]));
    assert!(!preload.pass(&[false]), "no progress, so no further pass");
    assert_eq!(preload.loaded(), 2);
    assert_eq!(ensure_runtime(true, &preload), 2);
    assert!(gpu_usable(true, true) && !gpu_usable(false, true) && !gpu_usable(true, false));
}

#[test]
fn only_an_error_about_registering_a_provider_counts() {
    let mut watch = ProviderWatch::new();
    let line = "An error occurred when attempting to register CUDAExecutionProvider".to_owned();
    watch.on_event(false, &[line.clone()]);
    assert_eq!(registration_failures(&watch), 0);
    watch.on_event(true, &["attempting to register".into(), "CUDAExecutionProvider".into()]);
    assert_eq!(registration_failures(&watch), 0, "both halves must stand in one field");
    watch.on_event(true, &["other".into(), line]);
    assert_eq!(registration_failures(&watch), 1);
}

#[test]
fn a_streaming_model_is_opened_on_what_is_there() {
    let found = [
        Variant { dir: "p".into(), kind: Found::Fp32, family: Family::ParakeetTdt },
        Variant { dir: "n".into(), kind: Found::Int8, family: Family::NemotronStreaming },
    ];
    let (variant, provider) =
        streaming::open("/m", &found, Precision::Auto, Accelerator::Cuda, true, true).unwrap();
    assert_eq!((variant.dir.as_str(), provider), ("n", Provider::Cuda));
    let (_, provider) = streaming::open("/m", &found, Precision::Auto, Accelerator::Cpu, true, true).unwrap();
    assert_eq!(provider, Provider::Cpu);
    let (_, provider) = streaming::open("/m", &found, Precision::Auto, Accelerator::Cuda, true, false).unwrap();
    assert_eq!(provider, Provider::Cpu);
    assert_eq!(streaming::label(true, Provider::Cuda), "nemotron-streaming-0.6b (multilingual) on cuda");
    assert_eq!(streaming::label(false, Provider::Cpu), "nemotron-streaming-0.6b (en) on cpu");
    assert_eq!(streaming::target_language(true, Some("de".into())), Some("de".into()));
    assert_eq!(streaming::target_language(false, Some("de".into())), None);
}

#[test]
fn silence_pads_the_audio_past_the_next_boundary() {
    let mut feed = streaming::Feed::reset();
    assert!(feed.can_feed(usize::MAX));
    assert!(!feed.feed(0));
    assert_eq!(feed.finish(0), None);
    assert_eq!(feed.finish(100), Some(100));
    assert!(feed.feed(130));
    assert_eq!(feed.finish(100), Some(170));
    assert!(feed.feed(70));
    assert_eq!(feed.finish(100), Some(100));
}

#[test]
fn a_recording_is_fed_in_the_pieces_that_chunks_gives() {
    for (len, chunk) in [(0usize, 4usize), (1, 4), (8, 4), (9, 4), (3, 0), (5, 100)] {
        let samples: Vec<usize> = (0..len).collect();
        let pieces = streaming::pieces(len, chunk);
        let got: Vec<&[usize]> = pieces.iter().map(|(from, to)| &samples[*from..*to]).collect();
        let expected: Vec<&[usize]> = samples.chunks(chunk.max(1)).collect();
        assert_eq!(got, expected, "{len} {chunk}");
    }
    let whole = streaming::transcribe_all(&[" Hel".into(), "".into(), "lo ".into()], Span::from_millis(5));
    assert_eq!(whole, Transcript::new("Hello", Span::from_millis(5)));
}

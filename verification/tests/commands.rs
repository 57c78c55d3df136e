use murmur::config::{Accelerator, AsrEngine, InjectBackend, InjectConfig, Precision};
use murmur::doctor::{doctor, family_for, list_models, Acceleration, Checkup, Installed, Opened};
use murmur::inject::probe;
use murmur::install::{
    announcement, common, content_length, directory_for, finish, fp32, int8, is_complete, partial_name,
    precision_of, present_line, progress_due, pull, resolve, shows_progress, Chunk, Transfer,
};
use murmur::keymap::KeyCode;
use murmur::listen::{accelerator_of, banner, transcriber, Backend};
use murmur::models::{Family, Found, Variant};
use murmur::report::{chunk_line, first_run, header, runs, stream_lines, warm_runs};
use murmur::single::Single;
use murmur::settings::{describe, expand_home, load, path, write_default, Source};
use murmur::time::Span;
use murmur::tools::{
    captured_line, heard_nothing, is_silent, key_line, overlay_program, polls, recording_lines, recording_verdict,
    transcript_lines, type_notice, type_route, type_summary,
};

#[test]
fn each_precision_installs_somewhere_of_its_own() {
    assert_ne!(directory_for(Precision::Fp32), directory_for(Precision::Int8));
}

#[test]
fn auto_installs_where_auto_would_look() {
    // The selector treats a directory without full-precision weights as the
    // int8 model, so `auto` must not put int8 in the fp32 directory.
    assert_eq!(directory_for(Precision::Auto), directory_for(Precision::Int8));
}

#[test]
fn the_two_file_lists_do_not_overlap() {
    for file in int8() {
        assert!(!fp32().contains(&file), "{file} is claimed by both precisions");
    }
}

#[test]
fn every_file_list_is_complete_enough_to_load() {
    // A Parakeet model is recognised by its vocabulary and encoder.
    assert!(common().contains(&"vocab.txt".to_owned()));
    assert!(int8().iter().any(|f| f.starts_with("encoder-model")));
    assert!(fp32().iter().any(|f| f.starts_with("encoder-model")));
    assert!(fp32().contains(&"encoder-model.onnx.data".to_owned()), "external weights are required");
}

#[test]
fn a_pull_names_every_file() {
    let (dir, files) = pull("/models", Precision::Auto, true);
    assert_eq!(dir, format!("/models/{}", directory_for(Precision::Fp32)));
    assert_eq!(files.len(), common().len() + fp32().len());
    assert_eq!(files[0].name, "vocab.txt");
    assert_eq!(files[0].destination, format!("{dir}/vocab.txt"));
    assert_eq!(
        files[0].url,
        "https://huggingface.co/istupakov/parakeet-tdt-0.6b-v3-onnx/resolve/main/vocab.txt"
    );
    assert_eq!(pull("/models", Precision::Auto, false).1.len(), 5);
    assert_eq!(resolve(Precision::Auto, false), Precision::Int8);
    assert_eq!(resolve(Precision::Fp32, false), Precision::Fp32);
    assert_eq!(
        announcement("/m", Precision::Int8),
        ("  into    /m".to_owned(), "  weights Int8\n".to_owned())
    );
}

#[test]
fn a_word_names_a_precision() {
    assert_eq!(precision_of("auto"), Ok(Precision::Auto));
    assert_eq!(precision_of("fp32"), Ok(Precision::Fp32));
    assert_eq!(precision_of("int8"), Ok(Precision::Int8));
    assert_eq!(precision_of("q\"4"), Err("unknown precision \"q\\\"4\"; use auto, fp32 or int8".into()));
}

#[test]
fn a_length_is_read_as_the_number_it_is() {
    for text in ["0", "12", "+7", "", "+", "-1", " 4", "18446744073709551615", "18446744073709551616", "1e3", "007"] {
        assert_eq!(content_length(Some(text.to_owned())), text.parse().ok(), "{text:?}");
    }
    assert_eq!(content_length(None), None);
}

#[test]
fn a_download_is_kept_only_when_it_is_whole() {
    assert!(is_complete(Some(5), Some(5)));
    assert!(!is_complete(Some(4), Some(5)));
    assert!(!is_complete(None, None));
    assert_eq!(finish("f", 5, Some(5)), Ok(()));
    assert_eq!(finish("f", 5, None), Ok(()));
    assert_eq!(finish("f.onnx", 3, Some(5)), Err("f.onnx stopped after 3 of 5 bytes".into()));
    assert!(!shows_progress(Some(4_194_304)) && shows_progress(Some(4_194_305)) && shows_progress(None));
    assert!(progress_due(8_388_608) && progress_due(1_048_576) && !progress_due(2_000_000));
    for name in ["vocab.txt", "encoder-model.onnx.data", "plain", ".hidden", "a."] {
        let expected = std::path::Path::new(name).with_extension("part");
        assert_eq!(partial_name(name), expected.to_str().unwrap(), "{name}");
    }
}

#[test]
fn the_config_path_ends_where_users_expect_it() {
    assert!(path(None, Some("/home/me".into())).ends_with("murmur/config.toml"));
    assert_eq!(path(None, Some("/home/me".into())), "/home/me/.config/murmur/config.toml");
    assert_eq!(path(Some("/etc/xdg".into()), None), "/etc/xdg/murmur/config.toml");
    assert_eq!(path(None, None), ".config/murmur/config.toml");
}

#[test]
fn home_is_expanded_only_at_the_start_of_a_path() {
    let home = Some("/home/me".to_owned());
    assert_eq!(expand_home("~/models/x", home.clone()), "/home/me/models/x");
    assert_eq!(expand_home("/abs/~/x", home.clone()), "/abs/~/x");
    assert_eq!(expand_home("relative/x", home), "relative/x");
    assert_eq!(expand_home("~/models/x", None), "~/models/x");
}

#[test]
fn an_existing_config_is_never_clobbered() {
    assert_eq!(write_default("/c", false), Ok(()));
    assert_eq!(write_default("/c", true), Err("/c already exists".into()));
    assert_eq!(load(false), Source::Defaults);
    assert_eq!(load(true), Source::File);
    assert_eq!(describe("/c", true), "/c");
    assert_eq!(describe("/c", false), "/c  (not created yet)");
}

#[test]
fn listening_starts_with_a_transcriber_and_a_banner() {
    assert_eq!(transcriber(AsrEngine::Whisper, true), Ok(Backend::Mock));
    assert_eq!(transcriber(AsrEngine::Mock, false), Ok(Backend::Mock));
    assert_eq!(transcriber(AsrEngine::Parakeet, false), Ok(Backend::Parakeet));
    assert!(transcriber(AsrEngine::Nemotron, false).is_err());
    assert!(transcriber(AsrEngine::Whisper, false).is_err());
    assert_eq!(accelerator_of("cuda"), Ok(Accelerator::Cuda));
    assert_eq!(accelerator_of("cpu"), Ok(Accelerator::Cpu));
    assert!(accelerator_of("tpu").unwrap_err().contains("\"tpu\""));
    let lines = banner("RIGHTCTRL", "Yeti", 48_000, "parakeet", "uinput", true);
    assert_eq!(lines[0], "murmur \u{2014} hold RIGHTCTRL and speak");
    assert_eq!(lines[1], "  microphone  Yeti (48000 Hz)");
    assert!(lines.iter().any(|l| l.contains("double-tap RIGHTCTRL")));
    assert!(!banner("K", "m", 1, "t", "i", false).iter().any(|l| l.contains("double-tap")));
}

#[test]
fn timings_read_as_the_language_writes_them() {
    let (model, audio) = header("parakeet", Span::from_millis(2_500));
    assert_eq!((model.as_str(), audio.as_str()), ("  model  parakeet", "  audio  2.50s"));
    assert_eq!(
        first_run(Span::from_millis(125), Span::from_millis(2_500)),
        "  first  125ms (20x realtime)"
    );
    let warm = [Span::from_millis(300), Span::from_millis(100), Span::from_nanos(1_500_000)];
    let line = warm_runs(&warm, Span::from_millis(2_500)).unwrap();
    assert_eq!(line, "  warm   100ms median of 3 (25x realtime), best 1.5ms, worst 300ms");
    assert_eq!(warm_runs(&[], Span::from_millis(1)), None);
    assert_eq!(chunk_line(8_960), "  chunk  560ms");
    let (total, tail) = stream_lines(Span::from_millis(400), Span::from_millis(2_500), &warm);
    assert_eq!(total, "  total  400ms of compute spread across 2.50s of speech");
    assert_eq!(tail, "  tail   100ms median of 3 \u{2014} the only part the user waits for");
    assert_eq!((runs(0), runs(4)), (1, 4));
}

#[test]
fn durations_are_labelled_as_std_labels_them() {
    for (secs, nanos) in [(0, 0), (0, 1), (0, 1_500), (0, 12_345_678), (3, 0), (7, 250_000_000)] {
        let line = type_summary("ab", "keyboard", Span { secs, nanos }, Span { secs: 1, nanos: 0 });
        let label = format!("{:?}", std::time::Duration::new(secs, nanos));
        assert_eq!(line, format!("injected 2 chars via keyboard (backend ready in {label}, total 1s)"));
    }
}

#[test]
fn the_small_commands_say_what_they_do() {
    assert_eq!(key_line(KeyCode::new(97), "RIGHTCTRL"), "  RIGHTCTRL   \u{2190} your trigger");
    assert_eq!(key_line(KeyCode::new(30), "RIGHTCTRL"), "  A");
    assert_eq!(polls(3), 60);
    let (device, notice) = recording_lines("Yeti", 48_000, 2, 3);
    assert_eq!(device, "  device  Yeti (48000 Hz, 2 ch)");
    assert_eq!(notice, "\n  recording for 3s \u{2014} say something\n");
    assert!(heard_nothing(" \n\u{a0}") && !heard_nothing(" x "));
    let config = InjectConfig { backend: InjectBackend::Auto, paste_threshold: 3, ..InjectConfig::default() };
    assert_eq!(type_route(&config, "abc"), Ok("keyboard"));
    assert_eq!(type_route(&config, "abcd"), Ok("clipboard"));
    assert_eq!(type_route(&config, ""), Err("nothing to type"));
    assert_eq!(type_notice(0, "keyboard"), None);
    assert_eq!(
        type_notice(3, "keyboard").unwrap(),
        "focus the target window \u{2014} typing in 3s via keyboard"
    );
    assert_eq!(overlay_program(None), "murmur-hud");
    assert_eq!(overlay_program(Some("/opt/murmur-hud".into())), "/opt/murmur-hud");
}

fn checkup(uinput: Result<(), String>) -> Checkup {
    let variants = vec![
        Variant { dir: "/m/int8".into(), kind: Found::Int8, family: Family::ParakeetTdt },
        Variant { dir: "/m/fp32".into(), kind: Found::Fp32, family: Family::ParakeetTdt },
    ];
    Checkup {
        report: probe(uinput, Ok(()), Some("wayland".into())),
        trigger: "RIGHTCTRL".into(),
        keyboards: Ok(vec!["board (/dev/input/event3)".into()]),
        microphone: Ok(Opened { name: "Yeti".into(), rate: 48_000, channels: 1 }),
        models: Installed {
            engine: AsrEngine::Parakeet,
            precision: Precision::Auto,
            gpu_usable: false,
            root: "/m".into(),
            variants,
            names: vec!["int8".into(), "fp32".into()],
        },
        acceleration: Acceleration::CpuOnly,
    }
}

#[test]
fn the_doctor_names_what_would_be_used() {
    let (lines, verdict) = doctor(&checkup(Ok(())));
    assert_eq!(lines[0], "murmur doctor\n");
    assert_eq!(lines[1], "  \u{2713} uinput      /dev/uinput is writable");
    assert!(lines.contains(&"  \u{2713} trigger     RIGHTCTRL declared by 1 device(s)".to_owned()), "{lines:?}");
    assert!(lines.contains(&"  \u{2713} microphone  Yeti (48000 Hz, 1 ch)".to_owned()));
    assert!(lines.contains(&"  \u{2713} model       int8 [Int8]  \u{2190} selected".to_owned()), "{lines:?}");
    assert!(lines.contains(&"  \u{2022} model       fp32 [Fp32]".to_owned()));
    assert!(verdict.is_ok());
    let (_, verdict) = doctor(&checkup(Err("denied".into())));
    assert_eq!(verdict, Err("cannot inject text: uinput unavailable"));
    assert_eq!(family_for(AsrEngine::Nemotron), Family::NemotronStreaming);
}

#[test]
fn the_models_are_listed_with_their_weights() {
    assert_eq!(list_models("/m", &[]), vec!["  no models under /m", "  \u{2192} murmur models pull"]);
    assert_eq!(list_models("/m", &checkup(Ok(())).models.variants), vec!["  Int8  /m/int8", "  Fp32  /m/fp32"]);
}

fn single(value: f32) -> Single {
    Single::from_bits(value.to_bits())
}

#[test]
fn a_recording_is_silent_below_the_threshold() {
    let edge = 0.005f32;
    for bits in edge.to_bits() - 3..edge.to_bits() + 3 {
        let value = f32::from_bits(bits);
        assert_eq!(is_silent(single(value)), value < 0.005, "{value}");
    }
    for value in [0.0, f32::MIN_POSITIVE, 1e-40, 1e-6, 0.004, 0.0051, 0.1, 0.5, 1.0, 3.0, 1e30, f32::INFINITY] {
        assert_eq!(is_silent(single(value)), value < 0.005, "{value}");
    }
    let (lines, verdict) = recording_verdict(single(0.001));
    assert_eq!((lines.len(), verdict), (3, Err("no audio captured")));
    assert_eq!(recording_verdict(single(0.25)), (vec!["  \u{2713} audio captured".to_owned()], Ok(())));
}

#[test]
fn levels_are_written_to_three_decimals() {
    for (heard, peak) in [
        (0.0f32, 1.0f32),
        (0.0625, 0.1875),
        (0.12345, 0.99951),
        (1.0005, 0.0004),
        (123456.7, 1e-20),
        (3e20, 5e-4),
        (f32::MAX, f32::INFINITY),
    ] {
        assert_eq!(
            captured_line(Span::from_millis(1_500), single(heard), single(peak)),
            format!("\n  captured 1.50s at 16 kHz, peak sample {heard:.3}, peak level {peak:.3}")
        );
    }
}

#[test]
fn a_transcript_of_nothing_earns_advice() {
    assert_eq!(transcript_lines("a \"b\""), vec!["\n  \"a \\\"b\\\"\"\n"]);
    assert_eq!(transcript_lines(" \n").len(), 3);
}

#[test]
fn a_transfer_counts_what_it_is_given() {
    assert!(Transfer::begin(Some("7".into()), Some(7)).is_none());
    let mut small = Transfer::begin(Some("7".into()), Some(3)).unwrap();
    assert_eq!(small.read(4), Chunk::Data { progress: false });
    assert_eq!(small.end("f").unwrap_err(), "f stopped after 4 of 7 bytes");
    small.read(3);
    assert_eq!(small.read(0), Chunk::End);
    assert_eq!(small.end("f"), Ok(Some("  \u{2713} f".to_owned())));
    let mut unknown = Transfer::begin(None, Some(3)).unwrap();
    assert_eq!(unknown.read(1_048_576), Chunk::Data { progress: true });
    assert_eq!(unknown.read(1), Chunk::Data { progress: false });
    assert_eq!((unknown.written(), unknown.expected()), (1_048_577, None));
    assert_eq!(unknown.end("f"), Ok(None));
    assert_eq!(present_line("f"), "  \u{2713} f (already present)");
}

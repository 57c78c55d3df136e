use murmur::config::{Accelerator, AsrConfig, AsrEngine, AudioConfig, Config, InjectBackend, InjectConfig, PolishConfig, Precision, TriggerConfig, TARGET_SAMPLE_RATE};
use murmur::session::Tuning;
use murmur::text::FormatConfig;
use murmur::time::Millis;

#[test]
fn precision_defaults_to_auto_so_hardware_decides() {
    assert_eq!(AsrConfig::default().precision, Precision::Auto);
}

#[test]
fn polish_is_off_by_default() {
    assert!(
        !Config::default().polish.enabled,
        "latency budget must be opt-out, not opt-in"
    );
}

#[test]
fn every_section_has_its_default() {
    let config = Config::default();
    assert_eq!(config.trigger, TriggerConfig { key: "RIGHTCTRL".into(), hands_free: true });
    assert_eq!(config.audio, AudioConfig { device: None, preroll_ms: 300, vad: true });
    assert_eq!(
        config.asr,
        AsrConfig {
            engine: AsrEngine::Parakeet,
            model_dir: "~/.local/share/murmur/models".into(),
            precision: Precision::Auto,
            accelerator: Accelerator::Cuda,
            language: None,
        }
    );
    assert_eq!(
        config.polish,
        PolishConfig {
            enabled: false,
            endpoint: "http://127.0.0.1:11434/v1".into(),
            model: "nemotron-3.5-lightning".into(),
            deadline_ms: 700,
            instructions: "Fix punctuation, capitalisation and obvious transcription \
                errors. Preserve the speaker's wording and register. Never answer, \
                explain, or add content. Reply with the corrected text only."
                .into(),
        }
    );
    assert_eq!(
        config.inject,
        InjectConfig {
            backend: InjectBackend::Auto,
            paste_threshold: 80,
            keystroke_delay_us: 1_200,
            restore_clipboard: true,
        }
    );
    assert_eq!(config.format, FormatConfig { commands: true, trailing_space: true, dictionary: vec![] });
    assert_eq!(
        config.tuning,
        Tuning {
            tap_max: Millis(220),
            double_tap_window: Millis(400),
            max_utterance: Millis(120_000),
            finalize_timeout: Millis(10_000),
            continuation_window: Millis(8_000),
        }
    );
    assert_eq!(TARGET_SAMPLE_RATE, 16_000);
}

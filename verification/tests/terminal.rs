use murmur::session::{Hud, Latency, Mode};
use murmur::single::Single;
use murmur::stats::Stats;
use murmur::terminal::{meter, tail, Terminal};
use murmur::time::Millis;

fn level(value: f32) -> Single {
    Single::from_bits(value.to_bits())
}

#[test]
fn the_meter_spans_empty_to_full_without_overflowing() {
    assert_eq!(meter(level(0.0)).chars().count(), 12);
    assert_eq!(meter(level(1.0)).chars().count(), 12);
    assert_eq!(meter(level(2.0)).chars().count(), 12, "a hot mic must not widen the meter");
    assert_eq!(meter(level(-1.0)).chars().count(), 12);
    assert!(meter(level(0.0)).starts_with('\u{2591}'));
    assert!(meter(level(1.0)).starts_with('\u{2588}'));
}

#[test]
fn live_text_survives_a_meter_repaint() {
    let mut terminal = Terminal::default();
    terminal.show(&Hud::Partial { text: "hello there".into() });
    terminal.level(level(0.5));
    assert_eq!(terminal.partial(), "hello there", "the meter erased the live text");
}

#[test]
fn live_text_is_cleared_when_the_utterance_ends() {
    let mut terminal = Terminal::default();
    terminal.show(&Hud::Partial { text: "hello".into() });
    terminal.show(&Hud::Hidden);
    assert!(terminal.partial().is_empty());

    terminal.show(&Hud::Partial { text: "hello".into() });
    terminal.show(&Hud::Listening { mode: Mode::Hold });
    assert!(terminal.partial().is_empty(), "text from the last utterance leaked into the next");
}

#[test]
fn long_live_text_keeps_the_end_where_the_new_words_are() {
    let long: String = std::iter::repeat_n('a', 40).chain("THE END".chars()).collect();
    let shown = tail(&long, 20);
    assert!(shown.ends_with("THE END"), "{shown:?}");
    assert_eq!(shown.chars().count(), 20);
    assert!(shown.starts_with('\u{2026}'));
}

#[test]
fn short_live_text_is_shown_whole() {
    assert_eq!(tail("hi", 20), "hi");
    assert_eq!(tail("exactly twenty chars", 20), "exactly twenty chars");
}

fn filled(value: f32) -> usize {
    meter(level(value)).chars().filter(|c| *c == '\u{2588}').count()
}

#[test]
fn the_meter_is_monotonic_in_level() {
    let mut previous = 0;
    for step in 0..=10 {
        let current = filled(step as f32 / 10.0);
        assert!(current >= previous, "level {step} went backwards");
        previous = current;
    }
}

#[test]
fn the_meter_rounds_as_single_precision_does() {
    for step in 0..=4_096u32 {
        let value = step as f32 / 4_096.0 * 1.1 - 0.02;
        let expected = (value.clamp(0.0, 1.0) * 12.0).round() as usize;
        assert_eq!(filled(value), expected, "{value}");
    }
}

#[test]
fn a_line_is_padded_over_the_one_before_it() {
    let mut terminal = Terminal::default();
    let first = terminal.show(&Hud::Listening { mode: Mode::Locked });
    assert!(first.starts_with("\r\u{25cf} listening (hands-free \u{2014} press again to stop)  "));
    let width = first.chars().count() - 1;
    let second = terminal.show(&Hud::Thinking);
    assert_eq!(second.chars().count() - 1, width);
    assert!(second.starts_with("\r\u{25d0} transcribing\u{2026} "));
    assert_eq!(terminal.emitted(), format!("\r{}\r", " ".repeat(15)));
    assert_eq!(terminal.emitted(), "");
    assert_eq!(terminal.show(&Hud::Error { message: "boom".into() }), "  ! boom\n");
    assert_eq!(
        terminal.show(&Hud::Partial { text: "so far".into() }),
        format!("\r\u{25cf} {}  so far", "\u{2591}".repeat(12))
    );
    assert_eq!(
        terminal.level(level(0.5)),
        format!("\r\u{25cf} {}{}  so far", "\u{2588}".repeat(6), "\u{2591}".repeat(6))
    );
}

#[test]
fn a_completed_utterance_is_reported() {
    let terminal = Terminal::default();
    let mut stats = Stats::default();
    assert_eq!(terminal.completed(&stats), None);
    stats.record_latency(Latency {
        speaking: Millis(800),
        release_to_text: Millis(169),
        transcribe: Millis(150),
        inject: Millis(19),
    });
    assert_eq!(
        terminal.completed(&stats).unwrap(),
        "  \u{2937} release \u{2192} text 169ms (transcribe 150ms, inject 19ms)"
    );
}

//! The whole loop, driven from fixtures.
//!
//! These run the engine against the session with every device replaced: a
//! scripted recorder, a scripted transcriber, and a sink that keeps what it was
//! given instead of typing it. That makes the dictation path — press, record,
//! transcribe, format, inject, recover — assertable on any machine, with no
//! microphone, no window to type into, and no model on disk. The clock is scripted
//! too.

use murmur::asr::Transcript;
use murmur::engine::{settled, take, transcribe, Engine, EngineError, Outcome, Poll, Take, Turn, TICK_MS};
use murmur::audio::AudioError;
use murmur::hotkey::Edge;
use murmur::inject::{InjectError, TextSink};
use murmur::mock::Mock;
use murmur::partials::Reply;
use murmur::recorder::Fixture;
use murmur::session::{Command, Event, Hud, Phase, Session, Tuning};
use murmur::single::Single;
use murmur::text::{DictEntry, FormatConfig, Formatter};
use murmur::time::{Millis, Span};

/// A sink that records what it was asked to type.
#[derive(Clone, Default)]
struct Spy {
    emitted: Vec<String>,
    fail: bool,
}

impl TextSink for Spy {
    fn name(&self) -> &'static str {
        "spy"
    }

    fn inject(&mut self, text: &str) -> Result<(), InjectError> {
        if self.fail {
            return Err(InjectError::Unavailable("spy"));
        }
        self.emitted.push(text.to_owned());
        Ok(())
    }
}

fn speaking() -> Fixture<f32> {
    let audio = (0..16_000).map(|i| (i as f32 / 40.0).sin() * 0.3).collect();
    Fixture::of(audio)
}

fn silent() -> Fixture<f32> {
    Fixture::of(vec![0.0; 16_000])
}

struct Rig {
    engine: Engine,
    recorder: Fixture<f32>,
    asr: Mock,
    sink: Spy,
    huds: Vec<String>,
    completions: usize,
    now: u64,
}

impl Rig {
    fn new(session: Session, recorder: Fixture<f32>, asr: Mock, sink: Spy) -> Self {
        Rig { engine: Engine::new(session), recorder, asr, sink, huds: vec![], completions: 0, now: 1_000 }
    }

    fn saw_error(&self) -> bool {
        self.huds.iter().any(|h| h.starts_with("error:"))
    }

    fn show(&mut self, hud: &Hud) {
        let label = match hud {
            Hud::Hidden => "hidden".to_owned(),
            Hud::Listening { .. } => "listening".to_owned(),
            Hud::Partial { .. } => "partial".to_owned(),
            Hud::Thinking => "thinking".to_owned(),
            Hud::Error { message } => format!("error: {message}"),
        };
        self.huds.push(label);
    }

    fn perform(&mut self, command: &Command) -> Outcome {
        match command {
            Command::StartCapture { .. } => {
                self.recorder.begin();
                Outcome::Done
            }
            Command::Discard { .. } => {
                self.recorder.discard();
                Outcome::Done
            }
            Command::StopCapture { .. } => {
                let begun = Millis(self.now);
                match take(self.recorder.finish()) {
                    Take::Settled(result) => settled(result, begun, Millis(self.now)),
                    Take::Transcribe(recorded) => {
                        let delay = self.asr.delay();
                        self.now += delay.secs * 1000 + u64::from(delay.nanos) / 1_000_000;
                        let quiet = recorded.samples.iter().all(|s| s.abs() < 1e-6);
                        let heard = self.asr.transcribe(quiet).map(|text| Transcript::new(&text, delay));
                        transcribe(recorded.duration, Some(heard), begun, Millis(self.now))
                    }
                }
            }
            Command::Inject { text, .. } => {
                let begun = Millis(self.now);
                match self.sink.inject(text) {
                    Ok(()) => Outcome::Injected { at: Millis(self.now) },
                    Err(error) => Outcome::Failed { at: begun, message: error.message() },
                }
            }
            Command::Hud(hud) => {
                self.show(hud);
                Outcome::Done
            }
        }
    }

    fn pump(&mut self, event: Event) {
        self.engine.pump(event);
        while let Some(command) = self.engine.next_command() {
            let outcome = self.perform(&command);
            assert!(self.engine.can_execute(&command, &outcome));
            if self.engine.execute(command, outcome) {
                self.completions += 1;
            }
        }
    }

    /// Press and release the trigger once for each hold.
    fn drive(&mut self, holds: &[u64]) {
        for hold in holds {
            self.pump(Engine::edge_event(Edge::Down, Millis(self.now)));
            self.now += hold;
            self.pump(Engine::edge_event(Edge::Up, Millis(self.now)));
            self.now += 20;
        }
    }
}

/// Tuning that treats any measurable hold as speech.
fn tuning() -> Tuning {
    Tuning { tap_max: Millis(0), ..Tuning::default() }
}

fn rig(recorder: Fixture<f32>, asr: Mock, sink: Spy) -> Rig {
    Rig::new(Session::new(tuning(), Formatter::new(FormatConfig::default())), recorder, asr, sink)
}

fn lines(text: &[&str]) -> Mock {
    Mock::new(text.iter().map(|t| t.to_string()).collect())
}

const HOLD: u64 = 40;

fn hundredth() -> Single {
    Single::from_bits(100.0f32.to_bits())
}

#[test]
fn a_hold_puts_the_transcript_at_the_cursor() {
    let mut rig = rig(speaking(), lines(&["Hello world."]), Spy::default());
    rig.drive(&[HOLD]);

    assert_eq!(rig.sink.emitted, vec!["Hello world. "]);
    assert_eq!(rig.engine.stats().utterances(), 1);
    assert_eq!(rig.completions, 1);
    assert_eq!(rig.engine.stats().characters(), 13);
}

#[test]
fn a_tap_shorter_than_the_threshold_types_nothing() {
    let mut rig = Rig::new(
        // A realistic tap threshold, and a hold well under it.
        Session::new(Tuning::default(), Formatter::new(FormatConfig::default())),
        speaking(),
        Mock::default(),
        Spy::default(),
    );
    rig.drive(&[30]);

    assert!(rig.sink.emitted.is_empty(), "a stray tap typed {:?}", rig.sink.emitted);
    assert_eq!(rig.engine.stats().utterances(), 0);
}

#[test]
fn silence_types_nothing_but_still_completes_cleanly() {
    let mut rig = rig(silent(), Mock::default(), Spy::default());
    rig.drive(&[HOLD]);

    assert!(rig.sink.emitted.is_empty());
    assert!(!rig.saw_error(), "silence must not be reported as a failure");
}

#[test]
fn consecutive_dictations_flow_into_one_another() {
    let mut rig = rig(speaking(), lines(&["First one.", "Second one."]), Spy::default());
    rig.drive(&[HOLD, HOLD]);

    assert_eq!(rig.sink.emitted, vec!["First one. ", " Second one. "]);
}

#[test]
fn a_failing_transcriber_reports_and_the_next_dictation_still_works() {
    let mut rig = rig(speaking(), Mock::failing(), Spy::default());
    rig.drive(&[HOLD, HOLD]);

    assert!(rig.sink.emitted.is_empty());
    assert!(rig.saw_error(), "a failed transcription must be surfaced, not swallowed");
    assert_eq!(
        rig.huds,
        vec![
            "listening",
            "thinking",
            "error: Transcribe failed: transcribing: mock transcriber is configured to fail",
            "listening",
            "thinking",
            "error: Transcribe failed: transcribing: mock transcriber is configured to fail",
        ]
    );

    rig.asr = lines(&["Back again."]);
    rig.drive(&[HOLD]);
    assert_eq!(rig.sink.emitted, vec!["Back again. "]);
}

#[test]
fn a_failing_sink_does_not_wedge_the_session() {
    let mut rig = rig(speaking(), Mock::default(), Spy { fail: true, ..Spy::default() });
    rig.drive(&[HOLD, HOLD]);

    assert!(rig.saw_error());
    assert_eq!(rig.engine.stats().utterances(), 0, "nothing reached the cursor");
    assert_eq!(rig.engine.phase(), Phase::Idle);
}

#[test]
fn a_failing_recorder_is_reported_rather_than_crashing_the_loop() {
    let mut rig = rig(speaking().failing("microphone went away"), Mock::default(), Spy::default());
    rig.drive(&[HOLD]);

    assert!(rig.sink.emitted.is_empty());
    assert!(rig.saw_error());
    assert_eq!(rig.huds.last().unwrap(), "error: Transcribe failed: microphone went away");
}

#[test]
fn recording_starts_on_press_and_never_outlives_the_utterance() {
    let mut rig = rig(speaking(), Mock::default(), Spy::default());
    rig.drive(&[HOLD, HOLD, HOLD]);

    assert_eq!(rig.engine.stats().utterances(), 3);
    assert_eq!(rig.recorder.begins, 3);
    assert!(!rig.recorder.is_recording());
}

#[test]
fn the_dictionary_and_spoken_commands_reach_the_cursor() {
    let format = FormatConfig {
        dictionary: vec![DictEntry::new("murmur", "Murmur")],
        ..FormatConfig::default()
    };
    let mut rig = Rig::new(
        Session::new(tuning(), Formatter::new(format)),
        speaking(),
        lines(&["murmur is listening new line and typing"]),
        Spy::default(),
    );
    rig.drive(&[HOLD]);

    assert_eq!(rig.sink.emitted, vec!["Murmur is listening\nand typing "]);
}

#[test]
fn latency_is_measured_from_release_to_text() {
    let mut rig = rig(speaking(), Mock::default().with_delay(Span::from_millis(60)), Spy::default());
    rig.drive(&[HOLD]);

    let stats = rig.engine.stats();
    let release_to_text = stats.release_to_text(hundredth()).expect("one sample");
    let transcribe = stats.transcribe(hundredth()).expect("one sample");
    assert!(
        transcribe >= Millis(55),
        "the scripted 60ms of inference should dominate, got {transcribe:?}"
    );
    assert!(
        release_to_text >= transcribe,
        "release-to-text ({release_to_text:?}) must include transcription ({transcribe:?})"
    );
    assert!(
        release_to_text < Millis(2_000),
        "the loop added unexplained latency: {release_to_text:?}"
    );
}

#[test]
fn an_idle_tick_asks_for_live_text_only_while_capturing() {
    let mut rig = rig(speaking(), Mock::default(), Spy::default());
    assert_eq!(TICK_MS, 50);
    assert_eq!(rig.engine.run(Poll::Timeout), Turn::Idle { capturing: None });
    assert_eq!(rig.engine.run(Poll::Trigger(Edge::Up)), Turn::Edge(Edge::Up));
    assert_eq!(rig.engine.run(Poll::Disconnected), Turn::Stop);

    let now = Span::from_millis(500);
    assert!(rig.engine.request_partial(rig.recorder.snapshot(), false, now).is_none());

    rig.pump(Event::TriggerDown(Millis(1_000)));
    assert_eq!(rig.engine.run(Poll::Timeout), Turn::Idle { capturing: Some(1) });
    assert!(rig.engine.request_partial(rig.recorder.snapshot(), true, now).is_none(), "the worker is busy");
    let request = rig.engine.request_partial(rig.recorder.snapshot(), false, now).expect("a request");
    assert_eq!(request.id, 1);
    assert_eq!(request.samples.len(), 16_000);
    assert!(rig.engine.request_partial(rig.recorder.snapshot(), false, Span::from_millis(799)).is_none());
    assert!(rig.engine.request_partial(rig.recorder.snapshot(), false, Span::from_millis(800)).is_some());
}

#[test]
fn live_text_is_delivered_as_an_event_of_its_own() {
    let mut rig = rig(speaking(), Mock::default(), Spy::default());
    rig.pump(Event::TriggerDown(Millis(1_000)));
    let reply = Reply { id: 1, text: "so far".into(), took: Span::from_millis(90) };
    rig.engine.deliver_partials(&[reply.clone()]);
    rig.pump(Engine::partial_event(reply, Millis(1_400)));
    assert_eq!(rig.huds, vec!["listening", "partial"]);

    rig.now = 2_000;
    rig.pump(Event::TriggerUp(Millis(2_000)));
    let stale = Reply { id: 1, text: "late".into(), took: Span::from_millis(90) };
    rig.pump(Engine::partial_event(stale, Millis(2_400)));
    assert_eq!(rig.huds.iter().filter(|h| *h == "partial").count(), 1);
}

#[test]
fn a_tick_past_the_cap_transcribes_what_there_is() {
    let mut rig = rig(speaking(), lines(&["Cut off."]), Spy::default());
    rig.pump(Event::TriggerDown(Millis(1_000)));
    rig.now = 121_000;
    rig.pump(Event::Tick(Millis(121_000)));
    assert_eq!(rig.sink.emitted, vec!["Cut off. "]);
}

#[test]
fn an_unreachable_transcriber_is_reported() {
    let outcome = transcribe(Span { secs: 1, nanos: 0 }, None, Millis(5), Millis(9));
    assert_eq!(outcome, Outcome::Failed { at: Millis(5), message: "transcriber lock poisoned".into() });
}

#[test]
fn an_empty_recording_transcribes_to_nothing() {
    match take::<f32>(Ok(murmur::recorder::Recorded { samples: vec![], trimmed: 0, duration: Span { secs: 0, nanos: 0 } })) {
        Take::Settled(Ok(text)) => assert_eq!(text, ""),
        other => panic!("{other:?}"),
    }
}

#[test]
fn a_loop_error_says_what_is_underneath() {
    assert_eq!(EngineError::Audio(AudioError::Device("gone".into())).message(), "audio device: gone");
    assert_eq!(
        EngineError::Inject(InjectError::Unavailable("x11")).message(),
        "the x11 backend is not available in this session"
    );
}

#[test]
fn an_outcome_that_cannot_be_is_refused() {
    let engine = Engine::new(Session::default());
    let inject = Command::Inject { id: 1, text: "x".into() };
    assert!(!engine.can_execute(&inject, &Outcome::Done));
    assert!(engine.can_execute(&inject, &Outcome::Injected { at: Millis(1) }));
    assert!(!engine.can_execute(&Command::Discard { id: 1 }, &Outcome::Injected { at: Millis(1) }));
}

#[test]
fn an_utterance_is_counted_once() {
    let mut rig = Rig::new(
        Session::new(Tuning::default(), Formatter::new(FormatConfig::default())),
        speaking(),
        lines(&["Hello world."]),
        Spy::default(),
    );
    rig.drive(&[1_500]);
    assert_eq!((rig.engine.stats().utterances(), rig.completions), (1, 1));

    // A tap hides the overlay, and so does a recording of nothing.
    rig.drive(&[80]);
    assert_eq!((rig.engine.stats().utterances(), rig.completions), (1, 1));
    rig.now += 1_000;
    rig.recorder = silent();
    rig.drive(&[1_500]);
    assert_eq!((rig.engine.stats().utterances(), rig.completions), (1, 1));
    assert_eq!(
        rig.huds,
        vec!["listening", "thinking", "hidden", "listening", "hidden", "listening", "thinking", "hidden"]
    );

    rig.recorder = speaking();
    rig.asr = lines(&["And again."]);
    rig.drive(&[1_500]);
    assert_eq!((rig.engine.stats().utterances(), rig.completions), (2, 2));
}

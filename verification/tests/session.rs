use murmur::session::{Command, Event, Hud, Mode, Phase, Session};
use murmur::time::Millis;

fn session() -> Session {
    Session::default()
}

/// Hold from `down` to `up`, transcribe at `+40ms`, inject at `+30ms`.
fn dictate(s: &mut Session, down: u64, up: u64, text: &str) -> Vec<Command> {
    s.handle(Event::TriggerDown(Millis(down)));
    s.handle(Event::TriggerUp(Millis(up)));
    let Phase::Finalizing { id } = s.phase() else {
        panic!("expected Finalizing, got {:?}", s.phase());
    };
    let out = s.handle(Event::Final {
        at: Millis(up + 40),
        id,
        text: text.to_owned(),
    });
    s.handle(Event::Injected {
        at: Millis(up + 70),
        id,
    });
    out
}

fn injected(commands: &[Command]) -> Option<&str> {
    commands.iter().find_map(|c| match c {
        Command::Inject { text, .. } => Some(text.as_str()),
        _ => None,
    })
}

#[test]
fn a_hold_produces_one_injection_and_returns_to_idle() {
    let mut s = session();
    let out = dictate(&mut s, 0, 1_500, "Hello world.");
    assert_eq!(injected(&out), Some("Hello world. "));
    assert_eq!(s.phase(), Phase::Idle);
}

#[test]
fn a_tap_emits_nothing() {
    let mut s = session();
    s.handle(Event::TriggerDown(Millis(0)));
    let out = s.handle(Event::TriggerUp(Millis(100)));
    assert_eq!(
        out,
        vec![Command::Discard { id: 1 }, Command::Hud(Hud::Hidden)]
    );
    assert_eq!(s.phase(), Phase::Idle);
}

#[test]
fn a_double_tap_enters_hands_free_and_the_next_press_ends_it() {
    let mut s = session();
    s.handle(Event::TriggerDown(Millis(0)));
    s.handle(Event::TriggerUp(Millis(80)));

    let out = s.handle(Event::TriggerDown(Millis(200)));
    assert!(out.contains(&Command::Hud(Hud::Listening { mode: Mode::Locked })));

    // Releasing the second tap must not end a hands-free capture.
    assert!(s.handle(Event::TriggerUp(Millis(260))).is_empty());
    assert!(s.is_capturing());

    let out = s.handle(Event::TriggerDown(Millis(9_000)));
    assert_eq!(out[0], Command::StopCapture { id: 2 });
}

#[test]
fn a_slow_second_tap_is_an_ordinary_hold() {
    let mut s = session();
    s.handle(Event::TriggerDown(Millis(0)));
    s.handle(Event::TriggerUp(Millis(80)));
    let out = s.handle(Event::TriggerDown(Millis(5_000)));
    assert!(out.contains(&Command::Hud(Hud::Listening { mode: Mode::Hold })));
}

#[test]
fn back_to_back_utterances_are_spaced_as_a_continuation() {
    let mut s = session();
    dictate(&mut s, 0, 1_000, "First sentence.");
    let out = dictate(&mut s, 2_000, 3_000, "Second sentence.");
    assert_eq!(injected(&out), Some(" Second sentence. "));
}

#[test]
fn a_distant_utterance_is_not_a_continuation() {
    let mut s = session();
    dictate(&mut s, 0, 1_000, "First sentence.");
    let out = dictate(&mut s, 60_000, 61_000, "Much later.");
    assert_eq!(injected(&out), Some("Much later. "));
}

#[test]
fn an_empty_transcript_injects_nothing() {
    let mut s = session();
    s.handle(Event::TriggerDown(Millis(0)));
    s.handle(Event::TriggerUp(Millis(1_000)));
    let out = s.handle(Event::Final {
        at: Millis(1_040),
        id: 1,
        text: String::new(),
    });
    assert_eq!(out, vec![Command::Hud(Hud::Hidden)]);
    assert_eq!(s.phase(), Phase::Idle);
}

#[test]
fn live_text_is_shown_while_capturing() {
    let mut s = session();
    s.handle(Event::TriggerDown(Millis(0)));
    let out = s.handle(Event::Partial {
        at: Millis(300),
        id: 1,
        text: "hello".into(),
    });
    assert_eq!(
        out,
        vec![Command::Hud(Hud::Partial {
            text: "hello".into()
        })]
    );
}

#[test]
fn live_text_arriving_after_the_key_is_released_is_discarded() {
    let mut s = session();
    s.handle(Event::TriggerDown(Millis(0)));
    s.handle(Event::TriggerUp(Millis(1_000)));

    // Same utterance, but the user has stopped talking: a partial that was
    // in flight would otherwise repaint a half-finished guess over the
    // "transcribing" state, and then over the final text.
    let out = s.handle(Event::Partial {
        at: Millis(1_010),
        id: 1,
        text: "half a gue".into(),
    });
    assert!(out.is_empty(), "a stale partial was shown: {out:?}");
}

#[test]
fn live_text_arriving_during_injection_is_discarded() {
    let mut s = session();
    s.handle(Event::TriggerDown(Millis(0)));
    s.handle(Event::TriggerUp(Millis(1_000)));
    s.handle(Event::Final {
        at: Millis(1_040),
        id: 1,
        text: "done".into(),
    });

    let out = s.handle(Event::Partial {
        at: Millis(1_050),
        id: 1,
        text: "don".into(),
    });
    assert!(
        out.is_empty(),
        "a partial overwrote the final text: {out:?}"
    );
}

#[test]
fn a_stale_transcript_from_a_cancelled_utterance_is_ignored() {
    let mut s = session();
    s.handle(Event::TriggerDown(Millis(0)));
    s.handle(Event::TriggerUp(Millis(1_000)));
    s.handle(Event::Cancel(Millis(1_010)));
    let out = s.handle(Event::Final {
        at: Millis(1_050),
        id: 1,
        text: "ghost".into(),
    });
    assert!(
        out.is_empty(),
        "cancelled utterance still injected: {out:?}"
    );
}

#[test]
fn a_stuck_key_stops_at_the_utterance_cap() {
    let mut s = session();
    s.handle(Event::TriggerDown(Millis(0)));
    assert!(s.handle(Event::Tick(Millis(60_000))).is_empty());
    let out = s.handle(Event::Tick(Millis(120_000)));
    assert_eq!(out[0], Command::StopCapture { id: 1 });
}

#[test]
fn a_hung_transcriber_releases_the_session() {
    let mut s = session();
    s.handle(Event::TriggerDown(Millis(0)));
    s.handle(Event::TriggerUp(Millis(1_000)));
    let out = s.handle(Event::Tick(Millis(11_001)));
    assert_eq!(out[0], Command::Discard { id: 1 });
    assert_eq!(s.phase(), Phase::Idle);
}

#[test]
fn latency_is_attributed_to_the_right_stage() {
    let mut s = session();
    dictate(&mut s, 100, 1_600, "Timed.");
    let l = s.last_latency().expect("latency recorded");
    assert_eq!(l.speaking, Millis(1_500));
    assert_eq!(l.transcribe, Millis(40));
    assert_eq!(l.inject, Millis(30));
    assert_eq!(l.release_to_text, Millis(70));
}

#[test]
fn every_utterance_id_is_unique_across_a_long_session() {
    let mut s = session();
    let mut ids = Vec::new();
    for i in 0..50 {
        let base = i * 10_000;
        s.handle(Event::TriggerDown(Millis(base)));
        s.handle(Event::TriggerUp(Millis(base + 1_000)));
        let Phase::Finalizing { id } = s.phase() else {
            panic!()
        };
        ids.push(id);
        s.handle(Event::Final {
            at: Millis(base + 1_040),
            id,
            text: "x".into(),
        });
        s.handle(Event::Injected {
            at: Millis(base + 1_070),
            id,
        });
    }
    ids.dedup();
    assert_eq!(ids.len(), 50);
}

#[test]
fn events_arriving_in_the_wrong_phase_never_panic_or_emit() {
    let mut s = session();
    let noise = [
        Event::TriggerUp(Millis(1)),
        Event::Injected {
            at: Millis(2),
            id: 7,
        },
        Event::Final {
            at: Millis(3),
            id: 7,
            text: "x".into(),
        },
        Event::Partial {
            at: Millis(4),
            id: 7,
            text: "x".into(),
        },
        Event::Cancel(Millis(5)),
        Event::Tick(Millis(6)),
    ];
    for event in noise {
        assert!(
            s.handle(event.clone()).is_empty(),
            "{event:?} leaked a command"
        );
    }
    assert_eq!(s.phase(), Phase::Idle);
}

#[test]
fn an_event_without_an_answer_leaves_no_trace() {
    let (mut a, mut b) = (session(), session());
    for s in [&mut a, &mut b] {
        s.handle(Event::TriggerDown(Millis(0)));
    }
    assert_eq!(a.handle(Event::Final { at: Millis(5), id: 7, text: "stray".to_owned() }), vec![]);
    assert_eq!(a.handle(Event::Injected { at: Millis(6), id: 1 }), vec![]);
    assert_eq!(a.handle(Event::TriggerDown(Millis(7))), vec![]);
    let later = [
        Event::TriggerUp(Millis(900)),
        Event::Final { at: Millis(950), id: 1, text: "Kept.".to_owned() },
        Event::Injected { at: Millis(980), id: 1 },
    ];
    for event in later {
        assert_eq!(a.handle(event.clone()), b.handle(event));
        assert_eq!(a.phase(), b.phase());
    }
    assert_eq!(a.last_latency(), b.last_latency());
}

#[test]
fn ids_count_up_from_one_and_a_tap_is_used_once() {
    let mut s = session();
    let listening = |id, mode| vec![Command::StartCapture { id }, Command::Hud(Hud::Listening { mode })];
    assert_eq!(s.handle(Event::TriggerDown(Millis(0))), listening(1, Mode::Hold));
    s.handle(Event::TriggerUp(Millis(100)));
    // Exactly at the edge of the window still counts.
    assert_eq!(s.handle(Event::TriggerDown(Millis(500))), listening(2, Mode::Locked));
    s.handle(Event::Cancel(Millis(510)));
    // The tap is used up.
    assert_eq!(s.handle(Event::TriggerDown(Millis(520))), listening(3, Mode::Hold));
    s.handle(Event::TriggerUp(Millis(600)));
    assert_eq!(s.handle(Event::TriggerDown(Millis(1_001))), listening(4, Mode::Hold));
}

#[test]
fn an_injection_splits_the_time_at_press_stop_and_transcript() {
    let mut s = session();
    s.handle(Event::TriggerDown(Millis(100)));
    s.handle(Event::TriggerUp(Millis(1_100)));
    s.handle(Event::Final { at: Millis(1_250), id: 1, text: "Done.".to_owned() });
    assert_eq!(s.last_latency(), None);
    assert_eq!(s.handle(Event::Injected { at: Millis(1_280), id: 1 }), vec![Command::Hud(Hud::Hidden)]);
    let latency = s.last_latency().expect("one utterance completed");
    assert_eq!(latency.speaking, Millis(1_000));
    assert_eq!(latency.transcribe, Millis(150));
    assert_eq!(latency.inject, Millis(30));
    assert_eq!(latency.release_to_text, Millis(180));
    // A tap moves neither the latency nor the moment of the last text.
    s.handle(Event::TriggerDown(Millis(2_000)));
    s.handle(Event::TriggerUp(Millis(2_050)));
    assert_eq!(s.last_latency(), Some(latency));
}

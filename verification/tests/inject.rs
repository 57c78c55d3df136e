use murmur::config::{InjectBackend, InjectConfig};
use murmur::inject::{
    availability, clipboard_text, is_available, open, probe, routes_to_clipboard, ClipboardReply, InjectError,
    Injector, PasteStep, Route, CLIPBOARD_HANDOVER_MS,
};

fn injector_config(backend: InjectBackend, threshold: usize) -> InjectConfig {
    InjectConfig { backend, paste_threshold: threshold, ..InjectConfig::default() }
}

fn should_paste(config: &InjectConfig, text: &str) -> bool {
    routes_to_clipboard(config, text)
}

#[test]
fn short_ascii_is_typed_and_leaves_the_clipboard_alone() {
    assert!(!should_paste(&injector_config(InjectBackend::Auto, 80), "hello there "));
}

#[test]
fn long_text_is_pasted_because_typing_is_linear_in_length() {
    let long = "word ".repeat(40);
    assert!(should_paste(&injector_config(InjectBackend::Auto, 80), &long));
}

#[test]
fn non_ascii_is_pasted_however_short_it_is() {
    assert!(should_paste(&injector_config(InjectBackend::Auto, 80), "café"));
    assert!(should_paste(&injector_config(InjectBackend::Auto, 80), "🎙"));
}

#[test]
fn an_explicit_backend_overrides_the_length_heuristic() {
    let long = "word ".repeat(40);
    assert!(!should_paste(&injector_config(InjectBackend::Uinput, 80), &long));
    assert!(should_paste(&injector_config(InjectBackend::Clipboard, 80), "hi"));
}

#[test]
fn the_threshold_counts_characters_not_bytes() {
    let text = "é".repeat(10);
    assert_eq!(text.len(), 20, "precondition: multi-byte");
    assert!(should_paste(&injector_config(InjectBackend::Auto, 15), &text));
}

#[test]
fn probe_reports_every_capability_without_side_effects() {
    for uinput in [Ok(()), Err("Permission denied (os error 13)".to_owned())] {
        for clipboard in [Ok(()), Err("no display".to_owned())] {
            for session in [None, Some("wayland".to_owned())] {
                let report = probe(uinput.clone(), clipboard.clone(), session);
                assert!(report.iter().any(|c| c.name == "uinput"));
                assert!(report.iter().all(|c| c.available || c.remedy.is_some() || c.name == "session"));
            }
        }
    }
    let report = probe(Err("gone".into()), Ok(()), None);
    assert_eq!(report[0].detail, "/dev/uinput: gone");
    assert_eq!(report[2].detail, "unknown session");
    assert!(!report[2].available);
}

#[test]
fn the_threshold_itself_is_still_typed() {
    let config = injector_config(InjectBackend::Auto, 5);
    assert!(!should_paste(&config, "12345"));
    assert!(should_paste(&config, "123456"));
}

#[test]
fn a_backend_that_is_not_there_is_refused() {
    for backend in [InjectBackend::Portal, InjectBackend::X11] {
        assert!(matches!(open(&injector_config(backend, 80)), Err(InjectError::Unavailable(_))));
    }
    assert_eq!(open(&InjectConfig::default()), Ok(()));
}

#[test]
fn typable_text_falls_back_to_the_keyboard() {
    let auto = Injector::open(injector_config(InjectBackend::Auto, 3), false).unwrap();
    assert!(!auto.clipboard_available());
    assert_eq!(auto.inject(""), Route::Nothing);
    assert_eq!(auto.inject("abcd"), Route::Type);
    let with_clipboard = Injector::open(injector_config(InjectBackend::Auto, 3), true).unwrap();
    assert_eq!(with_clipboard.inject("abcd"), Route::Paste);
    assert_eq!(with_clipboard.inject("abc"), Route::Type);
    let failed = || Err(InjectError::Clipboard("lost".into()));
    assert_eq!(with_clipboard.after_paste("abcd", failed()), Ok(true));
    assert_eq!(with_clipboard.after_paste("é", failed()), Err(InjectError::Clipboard("lost".into())));
    assert_eq!(with_clipboard.after_paste("é", Ok(())), Ok(false));
    assert_eq!(auto.name(), "auto");
}

#[test]
fn a_paste_restores_what_was_there() {
    let restoring =
        Injector::open(InjectConfig { restore_clipboard: true, ..InjectConfig::default() }, true).unwrap();
    let mut steps = vec![];
    let mut done = None;
    while let Some(step) = restoring.paste(done, true) {
        steps.push(step);
        done = Some(step);
    }
    assert_eq!(
        steps,
        vec![PasteStep::Snapshot, PasteStep::Offer, PasteStep::Press, PasteStep::HandOver, PasteStep::Restore]
    );
    assert_eq!(restoring.paste(Some(PasteStep::Press), false), None);
    let plain =
        Injector::open(InjectConfig { restore_clipboard: false, ..InjectConfig::default() }, true).unwrap();
    assert_eq!(plain.paste(None, false), Some(PasteStep::Offer));
    assert_eq!(plain.paste(Some(PasteStep::Press), false), None);
    assert_eq!(CLIPBOARD_HANDOVER_MS, 120);
}

#[test]
fn an_empty_clipboard_is_still_a_clipboard() {
    for reply in [ClipboardReply::Contents, ClipboardReply::NoSeats, ClipboardReply::Empty, ClipboardReply::NoText] {
        assert_eq!(availability(reply.clone()), Ok(()));
        assert!(is_available(reply));
    }
    assert_eq!(availability(ClipboardReply::Failed("no wl".into())), Err("no wl".into()));
    assert!(!is_available(ClipboardReply::Failed("no wl".into())));
}

#[test]
fn a_clipboard_that_is_not_text_reads_as_nothing() {
    assert_eq!(clipboard_text(Some("caf\u{e9}".as_bytes().to_vec())), Some("caf\u{e9}".into()));
    assert_eq!(clipboard_text(Some(vec![0xff, 0xfe])), None);
    assert_eq!(clipboard_text(None), None);
}

#[test]
fn injection_errors_say_what_went_wrong() {
    assert_eq!(
        InjectError::Untypable { ch: '\u{e9}' }.message(),
        format!(
            "cannot type {:?} with a scancode; this session has no working clipboard to fall back on",
            '\u{e9}'
        )
    );
    assert_eq!(InjectError::Clipboard("x".into()).message(), "clipboard: x");
    assert_eq!(InjectError::from_uinput(true, "denied".into()), InjectError::UinputPermission);
    assert_eq!(InjectError::from_uinput(false, "busy".into()).message(), "virtual keyboard: busy");
    assert!(InjectError::UinputPermission.message().contains("/dev/uinput"));
}

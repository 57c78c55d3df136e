use evdev::KeyCode as E;
use murmur::hotkey::{
    edge_of, key_by_name, key_name, readable_keyboards, watch, watch_all, Edge, HotkeyError, Keyboard, Reading,
    Trigger,
};
use murmur::inject::InjectError;
use murmur::keymap::{
    all_keys, char_for, first_untypable, is_typable, key_for, KeyCode, KEY_BACKSPACE, KEY_LEFTCTRL,
    KEY_LEFTSHIFT, KEY_V,
};
use murmur::selftest::{awaits_more, probe, receive, report, verdict, Decoder};
use murmur::uinput::{backspace, chord, tap, type_text, Stroke};

#[test]
fn every_printable_ascii_character_is_typable() {
    for b in 0x20u8..0x7f {
        let c = b as char;
        assert!(key_for(c).is_some(), "no key for {c:?}");
    }
    assert!(key_for('\n').is_some());
    assert!(key_for('\t').is_some());
}

#[test]
fn distinct_characters_never_share_a_key_and_shift_state() {
    let mut seen = std::collections::HashMap::new();
    for b in 0x20u8..0x7f {
        let c = b as char;
        let combo = key_for(c).unwrap();
        if let Some(other) = seen.insert((combo.0.code(), combo.1), c) {
            panic!("{c:?} and {other:?} both map to {combo:?}");
        }
    }
}

#[test]
fn case_differs_only_by_shift() {
    for lower in 'a'..='z' {
        let upper = lower.to_ascii_uppercase();
        let (lk, lshift) = key_for(lower).unwrap();
        let (uk, ushift) = key_for(upper).unwrap();
        assert_eq!(lk.code(), uk.code());
        assert!(!lshift && ushift);
    }
}

#[test]
fn every_typable_character_survives_a_scancode_round_trip() {
    for b in 0x20u8..0x7f {
        let c = b as char;
        let (key, shift) = key_for(c).unwrap();
        assert_eq!(char_for(key, shift), Some(c), "round trip failed for {c:?}");
    }
    for c in ['\n', '\t'] {
        let (key, shift) = key_for(c).unwrap();
        assert_eq!(char_for(key, shift), Some(c));
    }
}

#[test]
fn non_ascii_is_rejected_so_it_can_be_routed_to_the_clipboard() {
    assert!(!is_typable("naïve"));
    assert_eq!(first_untypable("caf\u{e9} time"), Some('\u{e9}'));
    assert_eq!(first_untypable("plain ascii"), None);
}

#[test]
fn the_declared_key_set_covers_everything_the_table_can_emit() {
    let declared: std::collections::HashSet<u16> = all_keys().iter().map(|k| k.code()).collect();
    for b in 0x20u8..0x7f {
        let (key, _) = key_for(b as char).unwrap();
        assert!(declared.contains(&key.code()), "{:?} not declared", b as char);
    }
    assert!(declared.contains(&evdev::KeyCode::KEY_LEFTCTRL.code()));
    assert!(declared.contains(&evdev::KeyCode::KEY_LEFTSHIFT.code()));
}

/// The codes are the kernel's.
#[test]
fn the_keys_are_the_ones_evdev_names() {
    let table = [
        ('a', E::KEY_A, false), ('b', E::KEY_B, false), ('c', E::KEY_C, false), ('d', E::KEY_D, false),
        ('e', E::KEY_E, false), ('f', E::KEY_F, false), ('g', E::KEY_G, false), ('h', E::KEY_H, false),
        ('i', E::KEY_I, false), ('j', E::KEY_J, false), ('k', E::KEY_K, false), ('l', E::KEY_L, false),
        ('m', E::KEY_M, false), ('n', E::KEY_N, false), ('o', E::KEY_O, false), ('p', E::KEY_P, false),
        ('q', E::KEY_Q, false), ('r', E::KEY_R, false), ('s', E::KEY_S, false), ('t', E::KEY_T, false),
        ('u', E::KEY_U, false), ('v', E::KEY_V, false), ('w', E::KEY_W, false), ('x', E::KEY_X, false),
        ('y', E::KEY_Y, false), ('z', E::KEY_Z, false),
        ('1', E::KEY_1, false), ('!', E::KEY_1, true), ('2', E::KEY_2, false), ('@', E::KEY_2, true),
        ('3', E::KEY_3, false), ('#', E::KEY_3, true), ('4', E::KEY_4, false), ('$', E::KEY_4, true),
        ('5', E::KEY_5, false), ('%', E::KEY_5, true), ('6', E::KEY_6, false), ('^', E::KEY_6, true),
        ('7', E::KEY_7, false), ('&', E::KEY_7, true), ('8', E::KEY_8, false), ('*', E::KEY_8, true),
        ('9', E::KEY_9, false), ('(', E::KEY_9, true), ('0', E::KEY_0, false), (')', E::KEY_0, true),
        (' ', E::KEY_SPACE, false), ('\n', E::KEY_ENTER, false), ('\t', E::KEY_TAB, false),
        ('-', E::KEY_MINUS, false), ('_', E::KEY_MINUS, true), ('=', E::KEY_EQUAL, false),
        ('+', E::KEY_EQUAL, true), ('[', E::KEY_LEFTBRACE, false), ('{', E::KEY_LEFTBRACE, true),
        (']', E::KEY_RIGHTBRACE, false), ('}', E::KEY_RIGHTBRACE, true), ('\\', E::KEY_BACKSLASH, false),
        ('|', E::KEY_BACKSLASH, true), (';', E::KEY_SEMICOLON, false), (':', E::KEY_SEMICOLON, true),
        ('\'', E::KEY_APOSTROPHE, false), ('"', E::KEY_APOSTROPHE, true), ('`', E::KEY_GRAVE, false),
        ('~', E::KEY_GRAVE, true), (',', E::KEY_COMMA, false), ('<', E::KEY_COMMA, true),
        ('.', E::KEY_DOT, false), ('>', E::KEY_DOT, true), ('/', E::KEY_SLASH, false), ('?', E::KEY_SLASH, true),
    ];
    for (c, key, shift) in table {
        assert_eq!(key_for(c), Some((KeyCode::new(key.code()), shift)), "{c:?}");
    }
    assert_eq!(KEY_BACKSPACE, E::KEY_BACKSPACE.code());
    assert_eq!(KEY_LEFTSHIFT, E::KEY_LEFTSHIFT.code());
}

#[test]
fn a_tap_goes_down_and_up_and_releases_shift() {
    let a = KeyCode::new(evdev::KeyCode::KEY_A.code());
    let shift = KeyCode::new(KEY_LEFTSHIFT);
    assert_eq!(tap(a, false), vec![Stroke { key: a, value: 1 }, Stroke { key: a, value: 0 }]);
    assert_eq!(
        tap(a, true),
        vec![
            Stroke { key: shift, value: 1 },
            Stroke { key: a, value: 1 },
            Stroke { key: a, value: 0 },
            Stroke { key: shift, value: 0 },
        ]
    );
}

#[test]
fn a_chord_is_released_in_reverse() {
    let (ctrl, shift, v) = (KeyCode::new(KEY_LEFTCTRL), KeyCode::new(KEY_LEFTSHIFT), KeyCode::new(KEY_V));
    assert_eq!(
        chord(&[ctrl, shift], v),
        vec![
            Stroke { key: ctrl, value: 1 },
            Stroke { key: shift, value: 1 },
            Stroke { key: v, value: 1 },
            Stroke { key: v, value: 0 },
            Stroke { key: shift, value: 0 },
            Stroke { key: ctrl, value: 0 },
        ]
    );
    assert_eq!(backspace(2), vec![tap(KeyCode::new(KEY_BACKSPACE), false), tap(KeyCode::new(KEY_BACKSPACE), false)]);
}

#[test]
fn text_that_cannot_be_typed_is_refused_before_anything_is_pressed() {
    assert_eq!(type_text("caf\u{e9}"), Err(InjectError::Untypable { ch: '\u{e9}' }));
    assert_eq!(type_text("ok").unwrap().len(), 2);
}

#[test]
fn what_is_typed_reads_back() {
    let mut decoder = Decoder::new();
    let mut heard: Vec<Option<char>> = Vec::new();
    assert!(decoder.wants_more());
    for strokes in type_text(probe()).unwrap() {
        for stroke in strokes {
            if let Some(c) = decoder.read(stroke) {
                heard.push(c);
            }
        }
    }
    assert!(!decoder.wants_more());
    let back = receive(&heard);
    assert_eq!(back, probe());
    assert!(verdict(&back).is_ok());
    assert!(verdict("something else").is_err());
    let (sent, received) = report("a\"b");
    assert!(sent.ends_with(&format!("{:?}", probe())), "{sent}");
    assert!(received.ends_with("\"a\\\"b\""), "{received}");
}

#[test]
fn the_default_trigger_key_resolves() {
    assert_eq!(key_by_name("RIGHTCTRL").unwrap().code(), evdev::KeyCode::KEY_RIGHTCTRL.code());
}

#[test]
fn key_names_are_accepted_in_the_forms_users_actually_type() {
    for spelling in ["RIGHTCTRL", "rightctrl", "KEY_RIGHTCTRL", "  RightCtrl  "] {
        assert_eq!(
            key_by_name(spelling).unwrap().code(),
            evdev::KeyCode::KEY_RIGHTCTRL.code(),
            "failed for {spelling:?}"
        );
    }
}

#[test]
fn an_unknown_key_names_itself_in_the_error() {
    let err = key_by_name("NOSUCHKEY").unwrap_err();
    assert!(err.message().contains("NOSUCHKEY"), "{err:?}");
}

#[test]
fn names_round_trip_through_lookup() {
    for key in [
        evdev::KeyCode::KEY_RIGHTCTRL,
        evdev::KeyCode::KEY_CAPSLOCK,
        evdev::KeyCode::KEY_F13,
        evdev::KeyCode::KEY_RIGHTALT,
    ] {
        let key = KeyCode::new(key.code());
        let name = key_name(key).expect("named");
        assert_eq!(key_by_name(&name).unwrap(), key, "round trip failed for {name}");
    }
}

#[test]
fn candidate_trigger_keys_are_distinguishable_from_their_left_hand_twins() {
    assert_ne!(
        key_by_name("RIGHTCTRL").unwrap(),
        key_by_name("LEFTCTRL").unwrap(),
        "push-to-talk must not fire on the modifier users actually type with"
    );
}

#[test]
fn every_code_is_found_again_by_its_name() {
    for code in 1..=0x2ffu16 {
        let key = KeyCode::new(code);
        match key_name(key) {
            Some(name) => assert_eq!(key_by_name(&name).unwrap(), key, "{name}"),
            None => assert!(!format!("{:?}", evdev::KeyCode::new(code)).starts_with("KEY_"), "{code}"),
        }
    }
}

#[test]
fn a_key_without_a_name_has_none() {
    let unnamed = (1..=0x2ffu16).find(|c| format!("{:?}", evdev::KeyCode::new(*c)).starts_with("unknown"));
    assert_eq!(key_name(KeyCode::new(unnamed.expect("some code is unnamed"))), None);
    assert_eq!(key_name(KeyCode::new(KEY_V)), Some("V".into()));
}

fn keyboard(name: Option<&str>, has_keys: bool, reports: bool) -> Keyboard {
    Keyboard { name: name.map(str::to_owned), path: "/dev/input/event3".into(), has_keys, reports }
}

#[test]
fn only_devices_with_the_key_are_watched() {
    let devices = [
        keyboard(Some("mouse"), false, false),
        keyboard(Some("board"), true, true),
        keyboard(None, true, false),
        keyboard(Some("other"), true, true),
    ];
    let key = KeyCode::new(97);
    assert_eq!(watch(&devices, key), Ok(vec![1, 3]));
    assert_eq!(watch_all(&devices), Ok(vec![1, 2, 3]));
    match watch(&devices[..1], key) {
        Err(HotkeyError::NoDevice(name)) => assert!(name.contains("RIGHTCTRL"), "{name}"),
        other => panic!("{other:?}"),
    }
    assert!(watch_all(&[]).is_err());
    assert_eq!(keyboard(None, true, true).listing(), "unnamed (/dev/input/event3)");
    assert_eq!(
        readable_keyboards(&devices),
        vec!["board (/dev/input/event3)", "other (/dev/input/event3)"]
    );
}

#[test]
fn repeats_and_other_keys_are_no_edges() {
    assert_eq!(edge_of(1), Some(Edge::Down));
    assert_eq!(edge_of(0), Some(Edge::Up));
    assert_eq!(edge_of(2), None);
    let (key, other) = (KeyCode::new(97), KeyCode::new(29));
    let mut trigger = Trigger::new(key);
    let read = |code: KeyCode, value: i32| Reading { code, value };
    assert_eq!(trigger.read(read(other, 1)), None);
    assert_eq!(trigger.read(read(key, 1)), Some(Edge::Down));
    assert_eq!(trigger.read(read(key, 2)), None);
    assert_eq!(trigger.read(read(key, 1)), None);
    assert_eq!(trigger.read(read(key, 0)), Some(Edge::Up));
    assert_eq!(trigger.read(read(key, 0)), None);
}

#[test]
fn the_probe_is_awaited_to_its_last_character() {
    let mut heard: Vec<Option<char>> = Vec::new();
    while awaits_more(&heard) {
        heard.push(None);
    }
    assert_eq!(heard.len(), probe().chars().count());
    assert!(Decoder::new().can_read());
}

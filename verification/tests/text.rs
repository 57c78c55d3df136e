use murmur::text::{DictEntry, EmitContext, FormatConfig, Formatter};

fn fmt() -> Formatter {
    Formatter::new(FormatConfig::default())
}

fn plain(raw: &str) -> Option<String> {
    fmt().format(raw, EmitContext::default())
}

fn with_dict(entries: Vec<DictEntry>) -> Formatter {
    Formatter::new(FormatConfig { dictionary: entries, ..FormatConfig::default() })
}

#[test]
fn trailing_space_lets_dictations_flow() {
    assert_eq!(plain("Hello there.").as_deref(), Some("Hello there. "));
}

#[test]
fn continuation_adds_a_leading_space() {
    let out = fmt().format("And another thing.", EmitContext { continuation: true });
    assert_eq!(out.as_deref(), Some(" And another thing. "));
}

#[test]
fn break_commands_become_literal_newlines() {
    assert_eq!(plain("one new line two").as_deref(), Some("one\ntwo "));
    assert_eq!(plain("one new paragraph two").as_deref(), Some("one\n\ntwo "));
}

#[test]
fn break_commands_survive_asr_punctuation() {
    assert_eq!(plain("One. New line. Two.").as_deref(), Some("One.\nTwo. "));
}

#[test]
fn scratch_that_discards_everything_before_it() {
    let out = plain("the wrong words scratch that the right words");
    assert_eq!(out.as_deref(), Some("the right words "));
}

#[test]
fn scratch_that_alone_emits_nothing() {
    assert_eq!(plain("some words scratch that"), None);
}

#[test]
fn a_leading_break_does_not_indent_the_target() {
    assert_eq!(plain("new line hello").as_deref(), Some("hello "));
}

#[test]
fn a_trailing_break_is_kept_and_suppresses_the_trailing_space() {
    assert_eq!(plain("hello new paragraph").as_deref(), Some("hello\n\n"));
}

#[test]
fn dictionary_replaces_whole_words_and_keeps_punctuation() {
    let out = with_dict(vec![DictEntry::new("kubernetes", "Kubernetes")])
        .format("we deploy kubernetes, daily", EmitContext::default());
    assert_eq!(out.as_deref(), Some("we deploy Kubernetes, daily "));
}

#[test]
fn dictionary_matches_multi_word_phrases() {
    let out = with_dict(vec![DictEntry::new("see sharp", "C#")])
        .format("written in see sharp.", EmitContext::default());
    assert_eq!(out.as_deref(), Some("written in C#. "));
}

#[test]
fn longest_dictionary_phrase_wins() {
    let dict = vec![DictEntry::new("see", "C"), DictEntry::new("see sharp", "C#")];
    let out = with_dict(dict).format("see sharp", EmitContext::default());
    assert_eq!(out.as_deref(), Some("C# "));
}

#[test]
fn dictionary_does_not_touch_substrings() {
    let out = with_dict(vec![DictEntry::new("cat", "CAT")])
        .format("the catalogue cat", EmitContext::default());
    assert_eq!(out.as_deref(), Some("the catalogue CAT "));
}

#[test]
fn empty_and_whitespace_transcripts_emit_nothing() {
    assert_eq!(plain(""), None);
    assert_eq!(plain("   \n  "), None);
}

#[test]
fn commands_can_be_disabled_and_pass_through_verbatim() {
    let f = Formatter::new(FormatConfig { commands: false, ..FormatConfig::default() });
    let out = f.format("one new line two", EmitContext::default());
    assert_eq!(out.as_deref(), Some("one new line two "));
}

#[test]
fn formatting_never_emits_leading_or_doubled_spaces_in_the_body() {
    for raw in ["a  b", " leading", "trailing ", "a new line  b"] {
        let out = plain(raw).unwrap();
        assert!(!out.contains("  "), "{raw:?} produced {out:?}");
        assert!(!out.starts_with(' '), "{raw:?} produced {out:?}");
    }
}

#[test]
fn what_follows_a_scratch_stands_alone() {
    let alone = plain("New words, new line and more");
    for before in ["", "scratch", "new", "delete that old", "one new line two", "Scratch. Delete"] {
        for command in ["scratch that", "Scratch that.", "DELETE  that,"] {
            let raw = format!("{before} {command}\tNew words, new line and more");
            assert_eq!(plain(&raw), alone, "{raw}");
        }
    }
}

#[test]
fn among_equally_long_entries_the_first_wins() {
    let entries = vec![
        DictEntry::new("red", "short"),
        DictEntry::new("red green", "first"),
        DictEntry::new("Red Green", "second"),
    ];
    let out = with_dict(entries).format("red green, red", EmitContext::default());
    assert_eq!(out.as_deref(), Some("first, short "));
}

#[test]
fn no_space_stands_beside_a_line_break() {
    for raw in ["one new line two", "one new paragraph new line two three", "a next line", "x  new line  y"] {
        for continuation in [false, true] {
            let out = fmt().format(raw, EmitContext { continuation }).unwrap();
            assert!(!out.contains(" \n") && !out.contains("\n "), "{out:?}");
        }
    }
}

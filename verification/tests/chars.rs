use murmur::chars::{chars_of, contains_text, split_words, string_of, to_lower, to_upper, trimmed, Class};

#[test]
fn character_classes_agree_with_the_standard_library() {
    for c in '\0'..=char::MAX {
        assert_eq!(Class::White.contains(c), c.is_whitespace(), "{c:?}");
        assert_eq!(Class::Punctuation.contains(c), c.is_ascii_punctuation(), "{c:?}");
        assert_eq!(Class::Space.contains(c), c == ' ', "{c:?}");
        assert_eq!(to_lower(c), c.to_ascii_lowercase(), "{c:?}");
        assert_eq!(to_upper(c), c.to_ascii_uppercase(), "{c:?}");
    }
}

#[test]
fn words_and_trimming_agree_with_the_standard_library() {
    for text in ["", " ", "a", "  two  words ", "tab\tand\nline", "\u{2003}wide\u{3000}space\u{a0}", "caf\u{e9} \u{1f399}"] {
        let chars = chars_of(text);
        let words: Vec<String> = split_words(&chars).iter().map(|w| string_of(w)).collect();
        let expected: Vec<String> = text.split_whitespace().map(str::to_owned).collect();
        assert_eq!(words, expected, "{text:?}");
        assert_eq!(string_of(&trimmed(&chars, Class::White)), text.trim(), "{text:?}");
    }
}

#[test]
fn searching_agrees_with_the_standard_library() {
    for (text, needle) in [("abc", ""), ("", ""), ("", "a"), ("abcabd", "abd"), ("aaab", "aab"), ("abc", "abcd")] {
        assert_eq!(contains_text(&chars_of(text), &chars_of(needle)), text.contains(needle), "{text:?} {needle:?}");
    }
}

//! Calls into code that is not verified here, with what is taken on trust of each.

use vstd::prelude::*;
use vstd::utf8::{decode_utf8, valid_utf8};

verus! {

/// The text with every character replaced by its Unicode lowercase mapping, as
/// `str::to_lowercase` gives it.
pub uninterp spec fn lowercase(s: Seq<char>) -> Seq<char>;

/// `str::to_lowercase`: the result depends on the text alone, and is given the
/// name [`lowercase`]. The Unicode mapping itself is not stated.
#[verifier::external_body]
pub(crate) fn to_lowercase(s: &str) -> (r: String)
    ensures
        r@ == lowercase(s@),
{
    s.to_lowercase()
}

/// The text in double quotes with its special characters escaped, as the `Debug`
/// form of `str` gives it.
pub uninterp spec fn quoted(s: Seq<char>) -> Seq<char>;

/// The `Debug` form of `str`: the result depends on the text alone, and is given
/// the name [`quoted`]. Which characters are escaped, and how, is not stated.
#[verifier::external_body]
pub(crate) fn to_quoted(s: &str) -> (r: String)
    ensures
        r@ == quoted(s@),
{
    format!("{s:?}")
}

/// The character in single quotes, escaped where it is special, as the `Debug` form
/// of `char` gives it.
pub uninterp spec fn quoted_char(c: char) -> Seq<char>;

/// The `Debug` form of `char`: the result depends on the character alone, and is
/// given the name [`quoted_char`]. Which characters are escaped, and how, is not
/// stated.
#[verifier::external_body]
pub(crate) fn to_quoted_char(c: char) -> (r: String)
    ensures
        r@ == quoted_char(c),
{
    format!("{c:?}")
}

/// `String::from_utf8`: the text the bytes encode where they are valid UTF-8, and
/// nothing otherwise.
#[verifier::external_body]
pub(crate) fn text_from_utf8(bytes: Vec<u8>) -> (r: Option<String>)
    ensures
        match r {
            Some(text) => valid_utf8(bytes@) && text@ == decode_utf8(bytes@),
            None => !valid_utf8(bytes@),
        },
{
    String::from_utf8(bytes).ok()
}

/// The `Debug` form of a `std::time::Duration` of so many seconds and nanoseconds.
pub uninterp spec fn duration_label(secs: u64, nanos: u32) -> Seq<char>;

/// The `Debug` form of `std::time::Duration`: the result depends on the duration
/// alone, and is given the name [`duration_label`]. The units and digits it is
/// written in are not stated.
#[verifier::external_body]
pub(crate) fn label_of_duration(secs: u64, nanos: u32) -> (r: String)
    requires
        nanos < 1_000_000_000,
    ensures
        r@ == duration_label(secs, nanos),
{
    format!("{:?}", core::time::Duration::new(secs, nanos))
}

/// The `Debug` form of the `evdev::KeyCode` with the code.
pub uninterp spec fn key_label(code: u16) -> Seq<char>;

/// A character that the names of keys are made of.
pub open spec fn is_name_char(c: char) -> bool {
    'A' <= c <= 'Z' || '0' <= c <= '9' || c == '_'
}

/// The `Debug` form of `evdev::KeyCode`: the name of the constant with that code, or
/// a text that gives the code where no constant has it. The result is given the name
/// [`key_label`]; which code has which name is not stated. No two codes share a
/// text. What follows `KEY_` at the front of a name is made of capital letters,
/// digits and underscores, and does not begin with `KEY_` again.
#[verifier::external_body]
pub(crate) fn label_of_key(code: u16) -> (r: String)
    ensures
        r@ == key_label(code),
        forall|other: u16| #[trigger] key_label(other) == r@ ==> other == code,
        forall|i: int|
            "KEY_"@.is_prefix_of(r@) && 4 <= i < r@.len() ==> is_name_char(#[trigger] r@[i]),
        "KEY_"@.is_prefix_of(r@) ==> !"KEY_"@.is_prefix_of(r@.skip(4)),
{
    format!("{:?}", evdev::KeyCode::new(code))
}

} // verus!

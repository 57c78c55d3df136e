//! Where the settings live.

use crate::chars::{begins_with, chars_of, part, push_text, string_of};
use crate::cuda::text_of;
use crate::paths::{join_path, joined_path};
use vstd::prelude::*;

verus! {

/// Where the config lives: below `XDG_CONFIG_HOME`, or below `.config` in the home
/// directory, or below `.config` here.
pub open spec fn config_path(config_home: Option<Seq<char>>, home: Option<Seq<char>>) -> Seq<char> {
    joined_path(
        match (config_home, home) {
            (Some(dir), _) => dir,
            (None, Some(h)) => joined_path(h, ".config"@),
            (None, None) => ".config"@,
        },
        "murmur/config.toml"@,
    )
}

/// Where the config lives, honouring `XDG_CONFIG_HOME`.
#[must_use]
pub fn path(config_home: Option<String>, home: Option<String>) -> (r: String)
    ensures
        r@ == config_path(text_of(config_home), text_of(home)),
{
    let base = match config_home {
        Some(dir) => dir,
        None => match home {
            Some(h) => join_path(h.as_str(), ".config"),
            None => ".config".to_owned(),
        },
    };
    join_path(base.as_str(), "murmur/config.toml")
}

/// What a missing or present file calls for when the config is loaded.
///
/// A missing config is the normal first-run state, not an error. A *malformed*
/// one is an error, and says which key it choked on rather than silently
/// reverting to defaults the user did not ask for.
#[derive(Clone, Copy, Debug, PartialEq, Eq, Structural)]
pub enum Source {
    Defaults,
    File,
}

/// Where the config is to be had from.
#[must_use]
pub fn load(exists: bool) -> (r: Source)
    ensures
        r == (if exists {
            Source::File
        } else {
            Source::Defaults
        }),
{
    if exists {
        Source::File
    } else {
        Source::Defaults
    }
}

/// May a default config be written to `path`? An existing one is never clobbered.
pub fn write_default(path: &str, exists: bool) -> (r: Result<(), String>)
    ensures
        match r {
            Ok(_) => !exists,
            Err(message) => exists && message@ == path@ + " already exists"@,
        },
{
    if exists {
        let mut message = path.to_owned();
        push_text(&mut message, " already exists");
        Err(message)
    } else {
        Ok(())
    }
}

/// `rest` below `home`; an absolute `rest` stands for itself.
pub open spec fn below(home: Seq<char>, rest: Seq<char>) -> Seq<char> {
    if rest.len() > 0 && rest[0] == '/' {
        rest
    } else {
        joined_path(home, rest)
    }
}

/// A path with `~/` at its front replaced by the home directory, where that is known.
pub open spec fn expanded(input: Seq<char>, home: Option<Seq<char>>) -> Seq<char> {
    if "~/"@.is_prefix_of(input) {
        match home {
            Some(h) => below(h, input.skip(2)),
            None => input,
        }
    } else {
        input
    }
}

/// Expand a leading `~` so config files can be written the way people type them.
#[must_use]
pub fn expand_home(input: &str, home: Option<String>) -> (r: String)
    ensures
        r@ == expanded(input@, text_of(home)),
{
    let chars = chars_of(input);
    let prefix = chars_of("~/");
    proof {
        reveal_strlit("~/");
    }
    if begins_with(chars.as_slice(), prefix.as_slice()) {
        match home {
            Some(h) => {
                let rest = part(chars.as_slice(), 2, chars.len());
                assert(rest@ =~= input@.skip(2));
                let text = string_of(rest.as_slice());
                if rest.len() > 0 && rest[0] == '/' {
                    text
                } else {
                    join_path(h.as_str(), text.as_str())
                }
            },
            None => input.to_owned(),
        }
    } else {
        input.to_owned()
    }
}

/// The home directory is put in only at the start of a path: any other path stands
/// as it is.
pub proof fn law_home_is_expanded_only_at_the_start(input: Seq<char>, home: Seq<char>)
    requires
        input.len() < 2 || input[0] != '~' || input[1] != '/',
    ensures
        expanded(input, Some(home)) == input,
{
    reveal_strlit("~/");
    if "~/"@.is_prefix_of(input) {
        assert(input.subrange(0, 2)[0] == '~');
        assert(input.subrange(0, 2)[1] == '/');
    }
}

/// What `murmur config` says of the file.
pub fn describe(path: &str, exists: bool) -> (r: String)
    ensures
        r@ == path@ + (if exists {
            ""@
        } else {
            "  (not created yet)"@
        }),
{
    let mut out = path.to_owned();
    if exists {
        push_text(&mut out, "");
    } else {
        push_text(&mut out, "  (not created yet)");
    }
    out
}

/// A path that begins with `~/` lies below the home directory, and stays as it is
/// where that is not known.
pub proof fn law_home_is_put_in_at_the_start(rest: Seq<char>, home: Seq<char>)
    requires
        rest.len() > 0 ==> rest[0] != '/',
        home.len() > 0,
        home.last() != '/',
    ensures
        expanded("~/"@ + rest, Some(home)) == home + seq!['/'] + rest,
        expanded("~/"@ + rest, None) == "~/"@ + rest,
{
    reveal_strlit("~/");
    let input = "~/"@ + rest;
    assert("~/"@ =~= input.subrange(0, 2));
    assert(input.skip(2) =~= rest);
    assert(home.push('/') =~= home + seq!['/']);
}

/// The config lies in the configuration directory, or else below the home directory.
pub proof fn law_where_the_config_lies(
    dir: Seq<char>,
    home: Seq<char>,
    other: Option<Seq<char>>,
)
    ensures
        config_path(Some(dir), other) == joined_path(dir, "murmur/config.toml"@),
        config_path(None, Some(home)) == joined_path(
            joined_path(home, ".config"@),
            "murmur/config.toml"@,
        ),
        config_path(None, None) == joined_path(".config"@, "murmur/config.toml"@),
{
}

} // verus!

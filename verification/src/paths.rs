//! Putting paths together.

use crate::chars::{chars_of, push_text};
use vstd::prelude::*;

verus! {

/// `rest` below the directory `base`: one separator between the two, unless `base`
/// is empty or ends in one already.
pub open spec fn joined_path(base: Seq<char>, rest: Seq<char>) -> Seq<char> {
    if base.len() == 0 {
        rest
    } else if base.last() == '/' {
        base + rest
    } else {
        base.push('/') + rest
    }
}

/// `rest`, which is not absolute, below the directory `base`.
pub fn join_path(base: &str, rest: &str) -> (r: String)
    ensures
        r@ == joined_path(base@, rest@),
{
    let chars = chars_of(base);
    let n: usize = chars.len();
    let mut out = base.to_owned();
    if n > 0 && chars[n - 1] != '/' {
        out.push('/');
    }
    push_text(&mut out, rest);
    assert(out@ =~= joined_path(base@, rest@));
    out
}

/// A path below a directory is the directory, one separator and the rest, whether or
/// not the directory is written with its separator; below nothing it is the rest.
pub proof fn law_one_separator(base: Seq<char>, rest: Seq<char>)
    requires
        base.len() > 0,
        base.last() != '/',
    ensures
        joined_path(base, rest) == base + seq!['/'] + rest,
        joined_path(base.push('/'), rest) == base + seq!['/'] + rest,
        joined_path(Seq::empty(), rest) == rest,
{
    assert(base.push('/') =~= base + seq!['/']);
}

} // verus!

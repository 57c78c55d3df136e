//! Making ONNX Runtime's CUDA provider loadable without touching the system.
//!
//! The provider ships linked against a specific CUDA major version — 13, at the
//! time of writing — and distributions lag well behind that. The usual advice is
//! to install a system CUDA toolkit, which needs root, conflicts with whatever
//! the distribution already ships, and is awkward to undo.
//!
//! None of that is necessary. The libraries are ordinary userspace shared
//! objects; only the *driver* is privileged, and the driver is already installed.
//! So Murmur keeps its own copy in its data directory and loads it directly.

use crate::audio_laws::{holds, law_what_holding_a_text_means};
use crate::chars::{chars_of, contains_text, has_text};
use crate::order::{alphabetical, name_views, sort_names};
use crate::paths::{join_path, joined_path};
use vstd::prelude::*;

verus! {

/// Observes ONNX Runtime's own verdict on execution-provider registration.
///
/// ORT does not return an error when a provider fails to register — it logs one
/// and carries on using the CPU. Since `ort` bridges that log into `tracing`,
/// watching for it is not a heuristic: it is ORT telling us directly. Feed this
/// every log event and the model can report the device it actually ran on instead
/// of the one it asked for.
#[derive(Debug, Clone, Copy)]
pub struct ProviderWatch {
    failures: usize,
}

/// The text reports that an execution provider failed to register.
pub open spec fn reports_failure(text: Seq<char>) -> bool {
    has_text(text, "attempting to register"@) && has_text(text, "ExecutionProvider"@)
}

impl ProviderWatch {
    pub closed spec fn count(self) -> usize {
        self.failures
    }

    /// Nothing seen yet.
    #[must_use]
    pub fn new() -> (r: Self)
        ensures
            r.count() == 0,
    {
        ProviderWatch { failures: 0 }
    }

    /// Takes note of one log event, given whether it is an error and what its
    /// fields say.
    pub fn on_event(&mut self, is_error: bool, fields: &[String])
        ensures
            final(self).count() == (if is_error && exists|i: int|
                0 <= i < fields@.len() && reports_failure(#[trigger] fields@[i]@) {
                if old(self).count() == usize::MAX {
                    0
                } else {
                    (old(self).count() + 1) as usize
                }
            } else {
                old(self).count()
            }),
    {
        if !is_error {
            return;
        }
        let what = chars_of("attempting to register");
        let whose = chars_of("ExecutionProvider");
        for i in 0..fields.len()
            invariant
                is_error,
                self.count() == old(self).count(),
                what@ == "attempting to register"@,
                whose@ == "ExecutionProvider"@,
                forall|j: int| 0 <= j < i ==> !reports_failure(#[trigger] fields@[j]@),
        {
            let text = chars_of(fields[i].as_str());
            if contains_text(text.as_slice(), what.as_slice()) && contains_text(
                text.as_slice(),
                whose.as_slice(),
            ) {
                assert(reports_failure(fields@[i as int]@));
                self.failures = if self.failures == usize::MAX {
                    0
                } else {
                    self.failures + 1
                };
                return;
            }
        }
    }
}

/// A monotonically increasing count of provider registration failures.
#[must_use]
pub fn registration_failures(watch: &ProviderWatch) -> (r: usize)
    ensures
        r == watch.count(),
{
    watch.failures
}

/// Where a private CUDA runtime is kept.
pub open spec fn bundle_path(
    explicit: Option<Seq<char>>,
    data_home: Option<Seq<char>>,
    home: Option<Seq<char>>,
) -> Seq<char> {
    match (explicit, data_home, home) {
        (Some(dir), _, _) => dir,
        (None, Some(data), _) => joined_path(data, "murmur/cuda/lib"@),
        (None, None, Some(h)) => joined_path(joined_path(h, ".local/share"@), "murmur/cuda/lib"@),
        (None, None, None) => joined_path("."@, "murmur/cuda/lib"@),
    }
}

pub open spec fn text_of(text: Option<String>) -> Option<Seq<char>> {
    match text {
        Some(t) => Some(t@),
        None => None,
    }
}

/// Where Murmur keeps a private CUDA runtime, if the system has none: what
/// `MURMUR_CUDA_DIR` says, or a directory below `XDG_DATA_HOME`, or below `HOME`.
#[must_use]
pub fn bundled_dir(
    explicit: Option<String>,
    data_home: Option<String>,
    home: Option<String>,
) -> (r: String)
    ensures
        r@ == bundle_path(text_of(explicit), text_of(data_home), text_of(home)),
{
    if let Some(dir) = explicit {
        return dir;
    }
    let base = match data_home {
        Some(data) => data,
        None => match home {
            Some(h) => join_path(h.as_str(), ".local/share"),
            None => ".".to_owned(),
        },
    };
    join_path(base.as_str(), "murmur/cuda/lib")
}

/// The file is a shared object and not a stub of one.
pub open spec fn is_library(name: Seq<char>) -> bool {
    has_text(name, ".so"@) && !has_text(name, "stub"@)
}

/// The names that are those of libraries, in their order.
pub open spec fn libraries(names: Seq<Seq<char>>) -> Seq<Seq<char>> {
    names.filter(|n: Seq<char>| is_library(n))
}

/// What is left to load, and how many have been loaded.
#[derive(Debug)]
pub struct Preload {
    pending: Vec<String>,
    loaded: usize,
}

/// What is left to load, and how many have been loaded.
#[verifier::ext_equal]
pub struct PreloadView {
    pub pending: Seq<Seq<char>>,
    pub loaded: nat,
}

impl View for Preload {
    type V = PreloadView;

    closed spec fn view(&self) -> PreloadView {
        PreloadView { pending: name_views(self.pending@), loaded: self.loaded as nat }
    }
}

/// Those of `names` that did not open.
pub open spec fn unopened(names: Seq<Seq<char>>, opened: Seq<bool>) -> Seq<Seq<char>>
    decreases names.len(),
{
    if names.len() == 0 {
        Seq::empty()
    } else {
        let front = unopened(names.drop_last(), opened);
        if opened[names.len() - 1] {
            front
        } else {
            front.push(names.last())
        }
    }
}

/// Loading every shared object in a directory into the global symbol namespace.
///
/// Dependency order is discovered rather than hardcoded: each pass loads
/// whatever will load, and passes repeat while progress is being made. A
/// library whose dependency has not been loaded yet simply fails this pass and
/// succeeds on a later one, which keeps this correct as CUDA's internal library
/// graph changes between releases.
impl Preload {
    #[verifier::type_invariant]
    spec fn inv(self) -> bool {
        self.loaded + self.pending@.len() <= usize::MAX
    }

    /// The libraries among the files in a directory, in order, with none loaded.
    pub fn new(names: Vec<String>) -> (r: Self)
        ensures
            r@.loaded == 0,
            r@.pending == alphabetical(libraries(name_views(names@))),
    {
        let so = chars_of(".so");
        let stub = chars_of("stub");
        let ghost all = name_views(names@);
        let mut kept: Vec<String> = Vec::new();
        assert(name_views(kept@) =~= libraries(all.take(0))) by {
            reveal(Seq::filter);
        }
        for i in 0..names.len()
            invariant
                so@ == ".so"@,
                stub@ == "stub"@,
                all == name_views(names@),
                name_views(kept@) == libraries(all.take(i as int)),
        {
            let name = chars_of(names[i].as_str());
            let ghost before = kept@;
            proof {
                reveal(Seq::filter);
                assert(all.take(i + 1).drop_last() =~= all.take(i as int));
                assert(all.take(i + 1).last() == names@[i as int]@);
            }
            if contains_text(name.as_slice(), so.as_slice()) && !contains_text(
                name.as_slice(),
                stub.as_slice(),
            ) {
                kept.push(names[i].clone());
                assert(name_views(kept@) =~= name_views(before).push(names@[i as int]@));
            }
        }
        assert(all.take(all.len() as int) =~= all);
        let pending = sort_names(kept);
        Preload { pending, loaded: 0 }
    }

    /// The libraries to try in this pass.
    #[must_use]
    pub fn pending(&self) -> (r: &Vec<String>)
        ensures
            name_views(r@) == self@.pending,
            r@.len() == self@.pending.len(),
    {
        assert(name_views(self.pending@).len() == self.pending@.len());
        &self.pending
    }

    /// How many have been loaded.
    #[must_use]
    pub fn loaded(&self) -> (r: usize)
        ensures
            r == self@.loaded,
    {
        self.loaded
    }

    /// Takes in which of the libraries opened in this pass, and says whether
    /// another is worth making.
    pub fn pass(&mut self, opened: &[bool]) -> (again: bool)
        requires
            opened@.len() == old(self)@.pending.len(),
        ensures
            final(self)@.pending == unopened(old(self)@.pending, opened@),
            final(self)@.loaded + final(self)@.pending.len() == old(self)@.loaded
                + old(self)@.pending.len(),
            again == (final(self)@.pending.len() != old(self)@.pending.len()),
            again ==> final(self)@.pending.len() < old(self)@.pending.len(),
    {
        proof {
            use_type_invariant(&*self);
            assert(name_views(self.pending@).len() == self.pending@.len());
        }
        let n: usize = self.pending.len();
        let ghost all = name_views(self.pending@);
        let mut left: Vec<String> = Vec::new();
        assert(name_views(left@) =~= unopened(all.take(0), opened@));
        for i in 0..n
            invariant
                n == self.pending@.len(),
                n == opened@.len(),
                self@ == old(self)@,
                all == name_views(self.pending@),
                name_views(left@) == unopened(all.take(i as int), opened@),
                left@.len() <= i,
        {
            let ghost before = left@;
            proof {
                assert(all.take(i + 1).drop_last() =~= all.take(i as int));
                assert(all.take(i + 1).last() == self.pending@[i as int]@);
            }
            if !opened[i] {
                left.push(self.pending[i].clone());
                assert(name_views(left@) =~= name_views(before).push(self.pending@[i as int]@));
            }
        }
        assert(all.take(all.len() as int) =~= all);
        assert(name_views(left@).len() == left@.len());
        let gone: usize = n - left.len();
        let again = left.len() != n;
        let loaded: usize = self.loaded + gone;
        *self = Preload { pending: left, loaded };
        again
    }
}

/// How many libraries were made resident: those loaded from Murmur's own directory,
/// and none where there is no such directory.
///
/// Zero simply means the system is expected to provide them.
#[must_use]
pub fn ensure_runtime(is_dir: bool, preload: &Preload) -> (r: usize)
    ensures
        r == (if is_dir {
            preload@.loaded
        } else {
            0
        }),
{
    if is_dir {
        preload.loaded()
    } else {
        0
    }
}

/// Whether a GPU can actually be used, as the selector sees it: only where the build
/// has a CUDA execution provider.
#[must_use]
pub fn gpu_usable(cuda_built: bool, loads: bool) -> (r: bool)
    ensures
        r == (cuda_built && loads),
{
    cuda_built && loads
}

/// Loading stops: a pass after which another is made leaves fewer to load, so there
/// are at most as many passes as libraries, and one more.
pub proof fn law_loading_stops(names: Seq<Seq<char>>, opened: Seq<bool>)
    ensures
        unopened(names, opened).len() <= names.len(),
        unopened(names, opened).len() == names.len() ==> unopened(names, opened) == names,
    decreases names.len(),
{
    if names.len() > 0 {
        law_loading_stops(names.drop_last(), opened);
        assert(names.drop_last().push(names.last()) =~= names);
    } else {
        assert(unopened(names, opened) =~= names);
    }
}

/// Where the private runtime lies: where it is said to, or else below the data
/// directory, or else below the home directory.
pub proof fn law_where_the_runtime_lies(
    explicit: Seq<char>,
    data: Seq<char>,
    home: Seq<char>,
    data_home: Option<Seq<char>>,
    other: Option<Seq<char>>,
)
    ensures
        bundle_path(Some(explicit), data_home, other) == explicit,
        bundle_path(None, Some(data), other) == joined_path(data, "murmur/cuda/lib"@),
        bundle_path(None, None, Some(home)) == joined_path(
            joined_path(home, ".local/share"@),
            "murmur/cuda/lib"@,
        ),
        bundle_path(None, None, None) == joined_path("."@, "murmur/cuda/lib"@),
{
}

/// The libraries are the files with ".so" in their name and no "stub", and a log entry
/// reports a failure where it says both that it attempts to register and what.
pub proof fn law_which_files_are_libraries(name: Seq<char>, entry: Seq<char>)
    ensures
        is_library(name) <==> holds(Some(name), ".so"@) && !holds(Some(name), "stub"@),
        reports_failure(entry) <==> holds(Some(entry), "attempting to register"@) && holds(
            Some(entry),
            "ExecutionProvider"@,
        ),
{
    law_what_holding_a_text_means(name, ".so"@);
    law_what_holding_a_text_means(name, "stub"@);
    law_what_holding_a_text_means(entry, "attempting to register"@);
    law_what_holding_a_text_means(entry, "ExecutionProvider"@);
}

/// After a pass what is left is what did not open, in the order it had.
pub proof fn law_what_did_not_open_is_left(names: Seq<Seq<char>>, name: Seq<char>, opened: Seq<bool>)
    ensures
        unopened(Seq::empty(), opened) == Seq::<Seq<char>>::empty(),
        opened[names.len() as int] ==> unopened(names.push(name), opened) == unopened(
            names,
            opened,
        ),
        !opened[names.len() as int] ==> unopened(names.push(name), opened) == unopened(
            names,
            opened,
        ).push(name),
{
    assert(names.push(name).drop_last() =~= names);
}

} // verus!

//! Finding the right weights on disk, and choosing between them.
//!
//! Parakeet ships in two precisions and the right one is not a matter of taste:
//! int8 is roughly a quarter of the size and matches fp32's speed *on a CPU*,
//! but on the CUDA provider most quantised operators have no kernel, so the
//! graph is copied back and forth across the bus and lands within noise of where
//! it started. fp32 is therefore the only sensible choice on a GPU, and int8 the
//! better one without, purely to save disk and memory.

use crate::config::Precision;
use crate::order::{alphabetical, name_views, sort_names};
use crate::paths::{join_path, joined_path};
use vstd::prelude::*;

verus! {

/// Which model architecture a directory holds.
///
/// The two are not interchangeable: TDT transcribes a finished recording in one
/// call, Nemotron consumes 560 ms chunks and keeps state between them. They also
/// lay their files out differently, which is how they are told apart.
#[derive(Debug, Clone, Copy, PartialEq, Eq, Structural)]
pub enum Family {
    ParakeetTdt,
    NemotronStreaming,
}

#[derive(Debug, Clone, Copy, PartialEq, Eq, Structural)]
pub enum Found {
    Fp32,
    Int8,
}

impl Found {
    pub open spec fn as_precision(self) -> Precision {
        match self {
            Found::Fp32 => Precision::Fp32,
            Found::Int8 => Precision::Int8,
        }
    }

    #[must_use]
    pub fn precision(self) -> (r: Precision)
        ensures
            r == self.as_precision(),
    {
        match self {
            Found::Fp32 => Precision::Fp32,
            Found::Int8 => Precision::Int8,
        }
    }
}

#[derive(Debug, Clone, PartialEq, Eq)]
pub struct Variant {
    pub dir: String,
    pub kind: Found,
    pub family: Family,
}

/// A file that tells what model a directory holds.
#[derive(Debug, Clone, Copy, PartialEq, Eq)]
pub enum Marker {
    Tokenizer,
    Encoder,
    EncoderWeights,
    Vocabulary,
    EncoderModel,
    EncoderModelInt8,
}

impl Marker {
    pub open spec fn file(self) -> Seq<char> {
        match self {
            Marker::Tokenizer => "tokenizer.model"@,
            Marker::Encoder => "encoder.onnx"@,
            Marker::EncoderWeights => "encoder.onnx.data"@,
            Marker::Vocabulary => "vocab.txt"@,
            Marker::EncoderModel => "encoder-model.onnx"@,
            Marker::EncoderModelInt8 => "encoder-model.int8.onnx"@,
        }
    }

    /// The file's name.
    #[must_use]
    pub fn file_name(self) -> (r: &'static str)
        ensures
            r@ == self.file(),
    {
        match self {
            Marker::Tokenizer => "tokenizer.model",
            Marker::Encoder => "encoder.onnx",
            Marker::EncoderWeights => "encoder.onnx.data",
            Marker::Vocabulary => "vocab.txt",
            Marker::EncoderModel => "encoder-model.onnx",
            Marker::EncoderModelInt8 => "encoder-model.int8.onnx",
        }
    }
}

/// Which of those files a directory holds.
#[derive(Debug, Clone, Copy, PartialEq, Eq)]
pub struct Files {
    pub tokenizer: bool,
    pub encoder: bool,
    pub encoder_weights: bool,
    pub vocabulary: bool,
    pub encoder_model: bool,
    pub encoder_model_int8: bool,
}

impl Files {
    /// The model a directory with these files holds.
    pub open spec fn class(self) -> Option<(Family, Found)> {
        if self.tokenizer && self.encoder {
            Some(
                (
                    Family::NemotronStreaming,
                    if self.encoder_weights {
                        Found::Fp32
                    } else {
                        Found::Int8
                    },
                ),
            )
        } else if self.vocabulary && self.encoder_model {
            Some((Family::ParakeetTdt, Found::Fp32))
        } else if self.vocabulary && self.encoder_model_int8 {
            Some((Family::ParakeetTdt, Found::Int8))
        } else {
            None
        }
    }
}

/// Does this directory hold a usable model — and which, at what precision?
///
/// fp32 wins when both precisions sit in one directory, matching the order
/// `parakeet-rs` itself resolves encoder filenames in. External weights
/// (`.onnx.data`) are what distinguish a full-precision Nemotron export from a
/// quantised one, which carries its weights inline.
#[must_use]
pub fn classify(dir: &Files) -> (r: Option<(Family, Found)>)
    ensures
        r == dir.class(),
{
    if dir.tokenizer && dir.encoder {
        let kind = if dir.encoder_weights {
            Found::Fp32
        } else {
            Found::Int8
        };
        return Some((Family::NemotronStreaming, kind));
    }
    if dir.vocabulary {
        if dir.encoder_model {
            return Some((Family::ParakeetTdt, Found::Fp32));
        }
        if dir.encoder_model_int8 {
            return Some((Family::ParakeetTdt, Found::Int8));
        }
    }
    None
}

/// A model on disk.
#[verifier::ext_equal]
pub struct VariantView {
    pub dir: Seq<char>,
    pub kind: Found,
    pub family: Family,
}

impl View for Variant {
    type V = VariantView;

    open spec fn view(&self) -> VariantView {
        VariantView { dir: self.dir@, kind: self.kind, family: self.family }
    }
}

pub open spec fn variant_views(variants: Seq<Variant>) -> Seq<VariantView> {
    variants.map_values(|v: Variant| v@)
}

/// The model in a directory, as a list of none or one.
pub open spec fn held(dir: Seq<char>, files: Files) -> Seq<VariantView> {
    match files.class() {
        Some((family, kind)) => seq![VariantView { dir, kind, family }],
        None => Seq::empty(),
    }
}

pub open spec fn dir_views(dirs: Seq<(String, Files)>) -> Seq<(Seq<char>, Files)> {
    dirs.map_values(|d: (String, Files)| (d.0@, d.1))
}

/// The names of the directories.
pub open spec fn dir_names(dirs: Seq<(Seq<char>, Files)>) -> Seq<Seq<char>> {
    dirs.map_values(|d: (Seq<char>, Files)| d.0)
}

impl Files {
    /// A directory with none of the files.
    pub open spec fn none() -> Self {
        Files {
            tokenizer: false,
            encoder: false,
            encoder_weights: false,
            vocabulary: false,
            encoder_model: false,
            encoder_model_int8: false,
        }
    }
}

/// What the directory of a name holds.
pub open spec fn files_in(dirs: Seq<(Seq<char>, Files)>, name: Seq<char>) -> Files
    decreases dirs.len(),
{
    if dirs.len() == 0 {
        Files::none()
    } else if dirs.last().0 == name {
        dirs.last().1
    } else {
        files_in(dirs.drop_last(), name)
    }
}

fn find_files(dirs: &[(String, Files)], name: &String) -> (r: Files)
    ensures
        r == files_in(dir_views(dirs@), name@),
{
    let ghost all = dir_views(dirs@);
    let mut left: usize = dirs.len();
    assert(all.take(left as int) =~= all);
    while left > 0
        invariant
            all == dir_views(dirs@),
            left <= dirs@.len(),
            files_in(all, name@) == files_in(all.take(left as int), name@),
        decreases left,
    {
        let entry = &dirs[left - 1];
        proof {
            assert(all.take(left as int).last() == (dirs@[left - 1].0@, dirs@[left - 1].1));
            assert(all.take(left as int).drop_last() =~= all.take(left - 1));
        }
        if entry.0 == *name {
            return entry.1;
        }
        left -= 1;
    }
    Files {
        tokenizer: false,
        encoder: false,
        encoder_weights: false,
        vocabulary: false,
        encoder_model: false,
        encoder_model_int8: false,
    }
}

/// The models in the directories below `root` that have these names, in their order.
pub open spec fn held_below(
    root: Seq<char>,
    names: Seq<Seq<char>>,
    dirs: Seq<(Seq<char>, Files)>,
) -> Seq<VariantView>
    decreases names.len(),
{
    if names.len() == 0 {
        Seq::empty()
    } else {
        held_below(root, names.drop_last(), dirs) + held(
            joined_path(root, names.last()),
            files_in(dirs, names.last()),
        )
    }
}

/// Every model under `root`, including `root` itself, given what `root` holds and
/// what each directory below it holds, in whatever order those are listed: they come
/// in order of their names.
///
/// Accepting `root` as a model directory is what keeps an explicitly configured
/// path working after the default moved from one model to a directory of them.
#[must_use]
pub fn discover(root: &str, files: &Files, dirs: &[(String, Files)]) -> (r: Vec<Variant>)
    ensures
        variant_views(r@) == held(root@, *files) + held_below(
            root@,
            alphabetical(dir_names(dir_views(dirs@))),
            dir_views(dirs@),
        ),
{
    let mut found: Vec<Variant> = Vec::new();
    if let Some((family, kind)) = classify(files) {
        found.push(Variant { dir: root.to_owned(), kind, family });
    }
    assert(variant_views(found@) =~= held(root@, *files));
    let ghost first = variant_views(found@);
    let ghost all = dir_views(dirs@);
    let mut names: Vec<String> = Vec::new();
    for i in 0..dirs.len()
        invariant
            all == dir_views(dirs@),
            name_views(names@) == dir_names(all).take(i as int),
    {
        let ghost before = names@;
        names.push(dirs[i].0.clone());
        proof {
            assert(dir_names(all)[i as int] == dirs@[i as int].0@);
            assert(name_views(names@) =~= name_views(before).push(dirs@[i as int].0@));
            assert(dir_names(all).take(i + 1) =~= dir_names(all).take(i as int).push(
                dir_names(all)[i as int],
            ));
        }
    }
    assert(dir_names(all).take(dirs@.len() as int) =~= dir_names(all));
    let sorted = sort_names(names);
    let ghost order = name_views(sorted@);
    assert(first + held_below(root@, order.take(0), all) =~= first);
    for i in 0..sorted.len()
        invariant
            all == dir_views(dirs@),
            order == name_views(sorted@),
            variant_views(found@) == first + held_below(root@, order.take(i as int), all),
    {
        let ghost before = variant_views(found@);
        let dir = join_path(root, sorted[i].as_str());
        let holds = find_files(dirs, &sorted[i]);
        if let Some((family, kind)) = classify(&holds) {
            found.push(Variant { dir, kind, family });
        }
        proof {
            assert(order.take(i + 1).drop_last() =~= order.take(i as int));
            assert(order.take(i + 1).last() == sorted@[i as int]@);
            let more = held(joined_path(root@, sorted@[i as int]@), holds);
            assert(variant_views(found@) =~= before + more);
            assert(before + more =~= first + (held_below(root@, order.take(i as int), all) + more));
        }
    }
    assert(order.take(order.len() as int) =~= order);
    found
}

/// The precision to look for first.
pub open spec fn preferred(gpu_usable: bool, want: Precision) -> Found {
    match want {
        Precision::Fp32 => Found::Fp32,
        Precision::Int8 => Found::Int8,
        Precision::Auto => if gpu_usable {
            Found::Fp32
        } else {
            Found::Int8
        },
    }
}

/// The first of `variants` that is of `family` and, if it is given, of `kind`.
pub open spec fn first_of(
    variants: Seq<Variant>,
    family: Family,
    kind: Option<Found>,
) -> Option<nat>
    decreases variants.len(),
{
    if variants.len() == 0 {
        None
    } else {
        match first_of(variants.drop_last(), family, kind) {
            Some(i) => Some(i),
            None => if variants.last().family == family && (kind matches Some(k) ==> k
                == variants.last().kind) {
                Some((variants.len() - 1) as nat)
            } else {
                None
            },
        }
    }
}

/// The place of the weights to load: of the family, the first with the preferred
/// precision, or else the first.
pub open spec fn choice(
    variants: Seq<Variant>,
    gpu_usable: bool,
    want: Precision,
    family: Family,
) -> Option<nat> {
    match first_of(variants, family, Some(preferred(gpu_usable, want))) {
        Some(i) => Some(i),
        None => first_of(variants, family, None),
    }
}

proof fn lemma_first_of(variants: Seq<Variant>, family: Family, kind: Option<Found>)
    ensures
        match first_of(variants, family, kind) {
            Some(i) => i < variants.len() && variants[i as int].family == family && (kind matches Some(
                k,
            ) ==> variants[i as int].kind == k),
            None => forall|i: int|
                0 <= i < variants.len() && (#[trigger] variants[i]).family == family ==> kind is Some
                    && variants[i].kind != kind->0,
        },
    decreases variants.len(),
{
    if variants.len() > 0 {
        lemma_first_of(variants.drop_last(), family, kind);
        if first_of(variants, family, kind) is None {
            assert forall|i: int|
                0 <= i < variants.len() && (#[trigger] variants[i]).family == family implies kind is Some
                && variants[i].kind != kind->0 by {
                if i < variants.len() - 1 {
                    assert(variants.drop_last()[i] == variants[i]);
                }
            }
        }
    }
}

proof fn lemma_first_of_prefix(variants: Seq<Variant>, family: Family, kind: Option<Found>, n: int)
    requires
        0 <= n <= variants.len(),
        first_of(variants.take(n), family, kind) is Some,
    ensures
        first_of(variants, family, kind) == first_of(variants.take(n), family, kind),
    decreases variants.len(),
{
    if n < variants.len() {
        assert(variants.drop_last().take(n) =~= variants.take(n));
        lemma_first_of_prefix(variants.drop_last(), family, kind, n);
    } else {
        assert(variants.take(n) =~= variants);
    }
}

fn find_first(variants: &[Variant], family: Family, kind: Option<Found>) -> (r: Option<usize>)
    ensures
        match r {
            Some(i) => i < variants@.len() && first_of(variants@, family, kind) == Some(i as nat),
            None => first_of(variants@, family, kind) is None,
        },
{
    for i in 0..variants.len()
        invariant
            first_of(variants@.take(i as int), family, kind) is None,
    {
        proof {
            assert(variants@.take(i + 1).drop_last() =~= variants@.take(i as int));
        }
        let fits = match kind {
            Some(k) => variants[i].kind == k,
            None => true,
        };
        if variants[i].family == family && fits {
            proof {
                lemma_first_of_prefix(variants@, family, kind, i + 1);
            }
            return Some(i);
        }
    }
    assert(variants@.take(variants@.len() as int) =~= variants@);
    None
}

/// Pick the weights to load.
///
/// Pure, so the policy is decided by tests rather than by whatever happens to be
/// installed on the machine running them. An explicit `want` is honoured when
/// those weights exist and falls back rather than failing when they do not: a
/// slower model is better than no dictation.
#[must_use]
pub fn choose_variant(variants: &[Variant], gpu_usable: bool, want: Precision, family: Family) -> (r: Option<
    &Variant,
>)
    ensures
        match r {
            Some(v) => choice(variants@, gpu_usable, want, family) matches Some(i) && i
                < variants@.len() && *v == variants@[i as int],
            None => choice(variants@, gpu_usable, want, family) is None,
        },
{
    let kind = match want {
        Precision::Fp32 => Found::Fp32,
        Precision::Int8 => Found::Int8,
        Precision::Auto => {
            if gpu_usable {
                Found::Fp32
            } else {
                Found::Int8
            }
        },
    };
    match find_first(variants, family, Some(kind)) {
        Some(i) => Some(&variants[i]),
        None => match find_first(variants, family, None) {
            Some(i) => Some(&variants[i]),
            None => None,
        },
    }
}

/// What is chosen is installed and of the family asked for; it has the preferred
/// precision wherever the family is installed with that; and nothing is chosen
/// exactly when the family is not installed.
pub proof fn law_the_choice_fits(
    variants: Seq<Variant>,
    gpu_usable: bool,
    want: Precision,
    family: Family,
)
    ensures
        match choice(variants, gpu_usable, want, family) {
            Some(i) => {
                &&& i < variants.len()
                &&& variants[i as int].family == family
                &&& variants[i as int].kind == preferred(gpu_usable, want) || forall|j: int|
                    0 <= j < variants.len() && (#[trigger] variants[j]).family == family
                        ==> variants[j].kind != preferred(gpu_usable, want)
            },
            None => forall|j: int|
                0 <= j < variants.len() ==> (#[trigger] variants[j]).family != family,
        },
{
    lemma_first_of(variants, family, Some(preferred(gpu_usable, want)));
    lemma_first_of(variants, family, None);
}

/// The order the models are listed in does not change the precision chosen.
pub proof fn law_choosing_ignores_the_order(
    one: Seq<Variant>,
    other: Seq<Variant>,
    gpu_usable: bool,
    want: Precision,
    family: Family,
)
    requires
        one.to_multiset() == other.to_multiset(),
    ensures
        match (
            choice(one, gpu_usable, want, family),
            choice(other, gpu_usable, want, family),
        ) {
            (Some(i), Some(j)) => one[i as int].kind == other[j as int].kind,
            (None, None) => true,
            _ => false,
        },
{
    broadcast use vstd::seq_lib::group_to_multiset_ensures;

    law_the_choice_fits(one, gpu_usable, want, family);
    law_the_choice_fits(other, gpu_usable, want, family);
    let a = choice(one, gpu_usable, want, family);
    let b = choice(other, gpu_usable, want, family);
    if let Some(i) = a {
        let v = one[i as int];
        assert(one.contains(v));
        assert(other.to_multiset().count(v) > 0);
        assert(other.contains(v));
        let k = choose|k: int| 0 <= k < other.len() && other[k] == v;
        assert(other[k].family == family);
    }
    if let Some(j) = b {
        let v = other[j as int];
        assert(other.contains(v));
        assert(one.to_multiset().count(v) > 0);
        assert(one.contains(v));
        let k = choose|k: int| 0 <= k < one.len() && one[k] == v;
        assert(one[k].family == family);
    }
}

/// The weights chosen are the first of the family with the precision asked for. With
/// none asked for, that is full precision where a GPU can be used and quantised where
/// none can. Where the family has no weights of that precision, they are the first of
/// the family.
pub proof fn law_the_first_that_fits_is_chosen(
    variants: Seq<Variant>,
    gpu_usable: bool,
    want: Precision,
    family: Family,
    kind: Found,
)
    requires
        kind == Found::Fp32 <==> want == Precision::Fp32 || want == Precision::Auto && gpu_usable,
    ensures
        match choice(variants, gpu_usable, want, family) {
            Some(i) => {
                &&& i < variants.len()
                &&& variants[i as int].family == family
                &&& variants[i as int].kind == kind ==> forall|j: int|
                    0 <= j < i && (#[trigger] variants[j]).family == family ==> variants[j].kind
                        != kind
                &&& variants[i as int].kind != kind ==> forall|j: int|
                    0 <= j < variants.len() && (#[trigger] variants[j]).family == family ==> i <= j
                        && variants[j].kind != kind
            },
            None => forall|j: int|
                0 <= j < variants.len() ==> (#[trigger] variants[j]).family != family,
        },
{
    let want_kind = preferred(gpu_usable, want);
    assert(want_kind == kind);
    law_the_choice_fits(variants, gpu_usable, want, family);
    lemma_none_before(variants, family, Some(kind));
    lemma_none_before(variants, family, None);
    lemma_first_of(variants, family, Some(kind));
}

proof fn lemma_none_before(variants: Seq<Variant>, family: Family, kind: Option<Found>)
    ensures
        first_of(variants, family, kind) matches Some(i) ==> i < variants.len() && forall|j: int|
            0 <= j < i && (#[trigger] variants[j]).family == family ==> kind is Some
                && variants[j].kind != kind->0,
    decreases variants.len(),
{
    if variants.len() > 0 {
        let front = variants.drop_last();
        lemma_none_before(front, family, kind);
        lemma_first_of(front, family, kind);
        assert forall|j: int| 0 <= j < front.len() implies front[j] == #[trigger] variants[j] by {}
        if first_of(front, family, kind) is None {
            assert forall|j: int|
                0 <= j < front.len() && (#[trigger] variants[j]).family == family implies kind
                is Some && variants[j].kind != kind->0 by {
                assert(front[j].family == family);
            }
        } else {
            let i = first_of(front, family, kind)->0;
            assert forall|j: int|
                0 <= j < i && (#[trigger] variants[j]).family == family implies kind is Some
                && variants[j].kind != kind->0 by {
                assert(front[j].family == family);
            }
        }
    }
}

/// What a directory holds goes by its files. A tokenizer and an encoder make a
/// streaming model, of full precision where its weights stand beside it. Failing that,
/// a vocabulary and an encoder make a model that transcribes at once, of full
/// precision where the full encoder is there.
pub proof fn law_what_a_directory_holds(files: Files)
    ensures
        ({
            let streams = files.tokenizer && files.encoder;
            let at_once = files.vocabulary && (files.encoder_model || files.encoder_model_int8);
            &&& files.class() is Some <==> streams || at_once
            &&& files.class() matches Some((family, kind)) ==> {
                &&& family == Family::NemotronStreaming <==> streams
                &&& streams ==> (kind == Found::Fp32 <==> files.encoder_weights)
                &&& !streams ==> (kind == Found::Fp32 <==> files.encoder_model)
            }
        }),
{
}

/// What is held below a directory is what each directory in turn holds: none is left
/// out, and each is called by the path to it.
pub proof fn law_one_more_directory(
    root: Seq<char>,
    names: Seq<Seq<char>>,
    name: Seq<char>,
    dirs: Seq<(Seq<char>, Files)>,
    files: Files,
)
    requires
        files_in(dirs, name) == files,
    ensures
        held_below(root, Seq::empty(), dirs) == Seq::<VariantView>::empty(),
        files.class() is None ==> held_below(root, names.push(name), dirs) == held_below(
            root,
            names,
            dirs,
        ),
        files.class() matches Some((family, kind)) ==> held_below(root, names.push(name), dirs)
            == held_below(root, names, dirs).push(
            VariantView { dir: joined_path(root, name), kind, family },
        ),
        held(root, files) == (match files.class() {
            Some((family, kind)) => seq![VariantView { dir: root, kind, family }],
            None => Seq::empty(),
        }),
{
    assert(names.push(name).drop_last() =~= names);
    let before = held_below(root, names, dirs);
    assert(before + Seq::<VariantView>::empty() =~= before);
    if let Some((family, kind)) = files.class() {
        let one = VariantView { dir: joined_path(root, name), kind, family };
        assert(before + seq![one] =~= before.push(one));
    }
}

/// The files of a directory are those listed for its name.
pub proof fn law_the_files_of_a_directory(dirs: Seq<(Seq<char>, Files)>, i: int)
    requires
        0 <= i < dirs.len(),
        forall|j: int| i < j < dirs.len() ==> (#[trigger] dirs[j]).0 != dirs[i].0,
    ensures
        files_in(dirs, dirs[i].0) == dirs[i].1,
    decreases dirs.len(),
{
    if i < dirs.len() - 1 {
        let front = dirs.drop_last();
        assert(dirs[dirs.len() - 1].0 != dirs[i].0);
        assert forall|j: int| i < j < front.len() implies (#[trigger] front[j]).0
            != front[i].0 by {
            assert(front[j] == dirs[j]);
        }
        law_the_files_of_a_directory(front, i);
    }
}

/// The files that tell models apart.
pub proof fn law_which_files_tell_models_apart()
    ensures
        Marker::Tokenizer.file() == "tokenizer.model"@,
        Marker::Encoder.file() == "encoder.onnx"@,
        Marker::EncoderWeights.file() == "encoder.onnx.data"@,
        Marker::Vocabulary.file() == "vocab.txt"@,
        Marker::EncoderModel.file() == "encoder-model.onnx"@,
        Marker::EncoderModelInt8.file() == "encoder-model.int8.onnx"@,
        Found::Fp32.as_precision() == Precision::Fp32,
        Found::Int8.as_precision() == Precision::Int8,
{
}

} // verus!

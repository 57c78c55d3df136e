//! Fetching weights, so an installed Murmur can be made to work.
//!
//! A package cannot carry the model: int8 is 640 MB and full precision 2.5 GB.
//! But telling a user who just installed something to assemble a `curl` loop is
//! not an install experience, so this does it — resumably, and without leaving a
//! half-written model behind to be discovered later as a corrupt one.

use crate::chars::{chars_of, decimal, part, push_decimal, push_text, string_of};
use crate::config::Precision;
use crate::models::{Family, Files, Found};
use crate::order::name_views;
use crate::outside::{quoted, to_quoted};
use crate::paths::{join_path, joined_path};
use crate::stats_laws::{law_numbers_read_back, value_of};
use vstd::prelude::*;

verus! {

pub open spec fn directory(precision: Precision) -> Seq<char> {
    match precision {
        Precision::Fp32 => "parakeet-tdt-0.6b-v3-fp32"@,
        _ => "parakeet-tdt-0.6b-v3"@,
    }
}

/// The directory name a precision is installed under.
///
/// Separate directories rather than one, because the selector chooses between
/// whole models and a directory holding both precisions would be ambiguous.
#[must_use]
pub fn directory_for(precision: Precision) -> (r: &'static str)
    ensures
        r@ == directory(precision),
{
    match precision {
        Precision::Fp32 => "parakeet-tdt-0.6b-v3-fp32",
        _ => "parakeet-tdt-0.6b-v3",
    }
}

/// The weights that `precision` stands for: full precision is only worth its size
/// if there is a GPU to run it on.
pub open spec fn settled(precision: Precision, gpu_usable: bool) -> Precision {
    match precision {
        Precision::Auto => if gpu_usable {
            Precision::Fp32
        } else {
            Precision::Int8
        },
        explicit => explicit,
    }
}

/// The weights that `precision` stands for.
#[must_use]
pub fn resolve(precision: Precision, gpu_usable: bool) -> (r: Precision)
    ensures
        r == settled(precision, gpu_usable),
{
    match precision {
        Precision::Auto => if gpu_usable {
            Precision::Fp32
        } else {
            Precision::Int8
        },
        explicit => explicit,
    }
}

pub open spec fn common_files() -> Seq<Seq<char>> {
    seq!["vocab.txt"@, "config.json"@, "nemo128.onnx"@]
}

pub open spec fn int8_files() -> Seq<Seq<char>> {
    seq!["decoder_joint-model.int8.onnx"@, "encoder-model.int8.onnx"@]
}

pub open spec fn fp32_files() -> Seq<Seq<char>> {
    seq!["decoder_joint-model.onnx"@, "encoder-model.onnx"@, "encoder-model.onnx.data"@]
}

/// Files shared by both precisions.
#[must_use]
pub fn common() -> (r: Vec<String>)
    ensures
        name_views(r@) == common_files(),
{
    let r = vec!["vocab.txt".to_owned(), "config.json".to_owned(), "nemo128.onnx".to_owned()];
    assert(name_views(r@) =~= common_files());
    r
}

/// Files of the quantised weights.
#[must_use]
pub fn int8() -> (r: Vec<String>)
    ensures
        name_views(r@) == int8_files(),
{
    let r = vec!["decoder_joint-model.int8.onnx".to_owned(), "encoder-model.int8.onnx".to_owned()];
    assert(name_views(r@) =~= int8_files());
    r
}

/// Files of the full-precision weights.
#[must_use]
pub fn fp32() -> (r: Vec<String>)
    ensures
        name_views(r@) == fp32_files(),
{
    let r = vec![
        "decoder_joint-model.onnx".to_owned(),
        "encoder-model.onnx".to_owned(),
        "encoder-model.onnx.data".to_owned(),
    ];
    assert(name_views(r@) =~= fp32_files());
    r
}

/// The files a precision is made of.
pub open spec fn files_of(precision: Precision) -> Seq<Seq<char>> {
    common_files() + (if precision == Precision::Fp32 {
        fp32_files()
    } else {
        int8_files()
    })
}

/// No file belongs to both precisions alone.
pub proof fn law_the_precisions_share_no_weights(i: int, j: int)
    requires
        0 <= i < int8_files().len(),
        0 <= j < fp32_files().len(),
    ensures
        int8_files()[i] != fp32_files()[j],
{
    reveal_strlit("decoder_joint-model.int8.onnx");
    reveal_strlit("encoder-model.int8.onnx");
    reveal_strlit("decoder_joint-model.onnx");
    reveal_strlit("encoder-model.onnx");
    reveal_strlit("encoder-model.onnx.data");
    let a = int8_files()[i];
    let b = fp32_files()[j];
    assert(a.len() == 29 || a.len() == 23);
    assert(b.len() == 24 || b.len() == 18 || b.len() == 23);
    if a == b {
        assert(a[13] == '.' && a[14] == 'i');
        assert(b[14] == 'o');
    }
}

/// One file to fetch.
#[derive(Clone, Debug, PartialEq, Eq)]
pub struct Download {
    pub name: String,
    pub destination: String,
    pub url: String,
}

/// One file to fetch.
#[verifier::ext_equal]
pub struct DownloadView {
    pub name: Seq<char>,
    pub destination: Seq<char>,
    pub url: Seq<char>,
}

impl View for Download {
    type V = DownloadView;

    open spec fn view(&self) -> DownloadView {
        DownloadView { name: self.name@, destination: self.destination@, url: self.url@ }
    }
}

/// Where a file comes from and goes to.
pub open spec fn download(dir: Seq<char>, name: Seq<char>) -> DownloadView {
    DownloadView {
        name,
        destination: joined_path(dir, name),
        url: "https://huggingface.co/istupakov/parakeet-tdt-0.6b-v3-onnx/resolve/main/"@ + name,
    }
}

pub open spec fn download_views(all: Seq<Download>) -> Seq<DownloadView> {
    all.map_values(|d: Download| d@)
}

/// What to fetch for `precision` into `root`: the directory, and each file.
pub fn pull(root: &str, precision: Precision, gpu_usable: bool) -> (r: (String, Vec<Download>))
    ensures
        ({
            let weights = settled(precision, gpu_usable);
            let dir = joined_path(root@, directory(weights));
            &&& r.0@ == dir
            &&& download_views(r.1@) == files_of(weights).map_values(
                |name: Seq<char>| download(dir, name),
            )
        }),
{
    let weights = resolve(precision, gpu_usable);
    let dir = join_path(root, directory_for(weights));
    let mut names = common();
    let mut more = match weights {
        Precision::Fp32 => fp32(),
        _ => int8(),
    };
    let ghost all = files_of(weights);
    let ghost shared = names@;
    let ghost own = more@;
    names.append(&mut more);
    assert(name_views(names@) =~= all) by {
        assert(name_views(names@) =~= name_views(shared) + name_views(own));
    }
    let mut out: Vec<Download> = Vec::new();
    let ghost wanted = all.map_values(|name: Seq<char>| download(dir@, name));
    for i in 0..names.len()
        invariant
            name_views(names@) == all,
            wanted == all.map_values(|name: Seq<char>| download(dir@, name)),
            download_views(out@) == wanted.take(i as int),
    {
        let ghost before = out@;
        let mut url = "https://huggingface.co/istupakov/parakeet-tdt-0.6b-v3-onnx/resolve/main/".to_owned();
        push_text(&mut url, names[i].as_str());
        let file = Download {
            name: names[i].clone(),
            destination: join_path(dir.as_str(), names[i].as_str()),
            url,
        };
        out.push(file);
        proof {
            assert(all[i as int] == names@[i as int]@);
            assert(download_views(out@) =~= download_views(before).push(file@));
            assert(wanted.take(i + 1) =~= wanted.take(i as int).push(wanted[i as int]));
        }
    }
    assert(wanted.take(names@.len() as int) =~= wanted);
    (dir, out)
}

/// The weights' name.
pub open spec fn precision_name(precision: Precision) -> Seq<char> {
    match precision {
        Precision::Auto => "Auto"@,
        Precision::Fp32 => "Fp32"@,
        Precision::Int8 => "Int8"@,
    }
}

/// The lines that say what is about to be fetched.
pub fn announcement(dir: &str, weights: Precision) -> (r: (String, String))
    ensures
        r.0@ == "  into    "@ + dir@,
        r.1@ == "  weights "@ + precision_name(weights) + "\n"@,
{
    let mut first = "  into    ".to_owned();
    push_text(&mut first, dir);
    let mut second = "  weights ".to_owned();
    push_text(
        &mut second,
        match weights {
            Precision::Auto => "Auto",
            Precision::Fp32 => "Fp32",
            Precision::Int8 => "Int8",
        },
    );
    push_text(&mut second, "\n");
    (first, second)
}

/// The precision a user's word stands for.
pub open spec fn named_precision(word: Seq<char>) -> Option<Precision> {
    if word == "auto"@ {
        Some(Precision::Auto)
    } else if word == "fp32"@ {
        Some(Precision::Fp32)
    } else if word == "int8"@ {
        Some(Precision::Int8)
    } else {
        None
    }
}

/// The precision a user's word stands for.
pub fn precision_of(word: &str) -> (r: Result<Precision, String>)
    ensures
        match r {
            Ok(precision) => named_precision(word@) == Some(precision),
            Err(message) => named_precision(word@) is None && message@ == "unknown precision "@
                + quoted(word@) + "; use auto, fp32 or int8"@,
        },
{
    let word = word.to_owned();
    if word == "auto".to_owned() {
        Ok(Precision::Auto)
    } else if word == "fp32".to_owned() {
        Ok(Precision::Fp32)
    } else if word == "int8".to_owned() {
        Ok(Precision::Int8)
    } else {
        let mut message = "unknown precision ".to_owned();
        push_text(&mut message, to_quoted(word.as_str()).as_str());
        push_text(&mut message, "; use auto, fp32 or int8");
        Err(message)
    }
}

/// The value of a run of decimal digits.
pub open spec fn digits_value(s: Seq<char>) -> nat
    decreases s.len(),
{
    if s.len() == 0 {
        0
    } else {
        digits_value(s.drop_last()) * 10 + ((s.last() as u32 - '0' as u32) as nat)
    }
}

pub open spec fn all_digits(s: Seq<char>) -> bool {
    forall|i: int| 0 <= i < s.len() ==> '0' <= #[trigger] s[i] <= '9'
}

/// The number a header gives: decimal digits, with a plus sign before them or not,
/// that fit in 64 bits.
pub open spec fn length_in(s: Seq<char>) -> Option<u64> {
    let digits = if s.len() > 0 && s[0] == '+' {
        s.skip(1)
    } else {
        s
    };
    if digits.len() > 0 && all_digits(digits) && digits_value(digits) <= u64::MAX {
        Some(digits_value(digits) as u64)
    } else {
        None
    }
}

proof fn lemma_digits_grow(s: Seq<char>, n: int)
    requires
        0 <= n <= s.len(),
        all_digits(s),
    ensures
        digits_value(s.take(n)) <= digits_value(s),
    decreases s.len(),
{
    if n < s.len() {
        assert(s.drop_last().take(n) =~= s.take(n));
        assert(all_digits(s.drop_last())) by {
            assert forall|i: int| 0 <= i < s.drop_last().len() implies '0'
                <= #[trigger] s.drop_last()[i] <= '9' by {
                assert(s.drop_last()[i] == s[i]);
            }
        }
        lemma_digits_grow(s.drop_last(), n);
        assert('0' <= s[s.len() - 1] <= '9');
    } else {
        assert(s.take(n) =~= s);
    }
}

/// How long a file is, going by the header that gives its length.
pub fn content_length(header: Option<String>) -> (r: Option<u64>)
    ensures
        r == (match header {
            Some(text) => length_in(text@),
            None => None,
        }),
{
    let text = match header {
        Some(text) => chars_of(text.as_str()),
        None => {
            return None;
        },
    };
    let n: usize = text.len();
    let start: usize = if n > 0 && text[0] == '+' {
        1
    } else {
        0
    };
    let ghost digits = text@.skip(start as int);
    assert(start == 0 ==> digits =~= text@);
    if start == n {
        return None;
    }
    let mut value: u64 = 0;
    for i in start..n
        invariant
            header is Some && header->0@ == text@,
            n == text@.len(),
            start <= n,
            digits == text@.skip(start as int),
            digits.len() > 0,
            length_in(text@) == (if all_digits(digits) && digits_value(digits) <= u64::MAX {
                Some(digits_value(digits) as u64)
            } else {
                None
            }),
            value == digits_value(digits.take(i - start)),
            forall|j: int| 0 <= j < i - start ==> '0' <= #[trigger] digits[j] <= '9',
    {
        let c: char = text[i];
        assert(digits[i - start] == c);
        if c < '0' || c > '9' {
            return None;
        }
        let digit: u64 = (c as u32 - '0' as u32) as u64;
        let ghost front = digits.take(i - start + 1);
        proof {
            assert(front.drop_last() =~= digits.take(i - start));
            assert(front.last() == c);
            if all_digits(digits) {
                lemma_digits_grow(digits, i - start + 1);
            }
        }
        if value > (u64::MAX - digit) / 10 {
            assert(value * 10 + digit > u64::MAX);
            return None;
        }
        value = value * 10 + digit;
    }
    assert(digits.take(n - start) =~= digits);
    Some(value)
}

/// Is a file of `existing` bytes the whole of one that has `expected`?
#[must_use]
pub fn is_complete(existing: Option<u64>, expected: Option<u64>) -> (r: bool)
    ensures
        r == (existing is Some && existing == expected),
{
    match (existing, expected) {
        (Some(have), Some(want)) => have == want,
        _ => false,
    }
}

/// Where the last dot of a file name's extension stands: not at its front.
pub open spec fn extension_at(name: Seq<char>) -> Option<int>
    decreases name.len(),
{
    if name.len() <= 1 {
        None
    } else if name.last() == '.' {
        Some(name.len() - 1)
    } else {
        extension_at(name.drop_last())
    }
}

/// The name of one file, without the directories that lead to it.
pub open spec fn is_file_name(name: Seq<char>) -> bool {
    &&& name.len() > 0
    &&& name != "."@
    &&& name != ".."@
    &&& !name.contains('/')
}

/// The name a file has while it is being fetched: its extension replaced.
pub open spec fn part_name(name: Seq<char>) -> Seq<char> {
    match extension_at(name) {
        Some(at) => name.take(at) + ".part"@,
        None => name + ".part"@,
    }
}

/// The name a file has while it is being fetched.
///
/// Written beside the target and renamed at the end: an interrupted download
/// must not leave something that looks like a usable model.
pub fn partial_name(name: &str) -> (r: String)
    requires
        is_file_name(name@),
    ensures
        r@ == part_name(name@),
{
    let chars = chars_of(name);
    let mut end: usize = chars.len();
    assert(chars@.take(end as int) =~= chars@);
    while end > 1 && chars[end - 1] != '.'
        invariant
            chars@ == name@,
            end <= chars@.len(),
            extension_at(name@) == extension_at(name@.take(end as int)),
        decreases end,
    {
        assert(name@.take(end as int).last() == name@[end - 1]);
        assert(name@.take(end as int).drop_last() =~= name@.take(end - 1));
        end -= 1;
    }
    let mut out = if end > 1 {
        assert(name@.take(end as int).last() == name@[end - 1]);
        let stem = part(chars.as_slice(), 0, end - 1);
        assert(stem@ =~= name@.take(end - 1));
        string_of(stem.as_slice())
    } else {
        name.to_owned()
    };
    push_text(&mut out, ".part");
    out
}

/// Does a file that has `expected` bytes earn a progress bar?
///
/// Only the large files do; drawing one for a 90 KB vocabulary just produces a line
/// of noise per file.
#[must_use]
pub fn shows_progress(expected: Option<u64>) -> (r: bool)
    ensures
        r == (expected is None || expected->0 > 4_194_304),
{
    match expected {
        Some(size) => size > 4_194_304,
        None => true,
    }
}

/// Is the bar to be redrawn once `written` bytes have come?
#[must_use]
pub fn progress_due(written: u64) -> (r: bool)
    ensures
        r == (written % 8_388_608 <= 1_048_576),
{
    written % 8_388_608 <= 1_048_576
}

/// What to do once the last byte has come: `Ok` to keep the file, or why not.
pub fn finish(name: &str, written: u64, expected: Option<u64>) -> (r: Result<(), String>)
    ensures
        match r {
            Ok(_) => expected is None || expected == Some(written),
            Err(message) => expected is Some && expected != Some(written) && message@ == name@
                + " stopped after "@ + decimal(written as nat) + " of "@ + decimal(
                expected->0 as nat,
            ) + " bytes"@,
        },
{
    match expected {
        Some(total) if written != total => {
            let mut message = name.to_owned();
            push_text(&mut message, " stopped after ");
            push_decimal(&mut message, written as u128);
            push_text(&mut message, " of ");
            push_decimal(&mut message, total as u128);
            push_text(&mut message, " bytes");
            Err(message)
        },
        _ => Ok(()),
    }
}

/// The line for a file that is there already.
pub fn present_line(name: &str) -> (r: String)
    ensures
        r@ == "  \u{2713} "@ + name@ + " (already present)"@,
{
    let mut out = "  \u{2713} ".to_owned();
    push_text(&mut out, name);
    push_text(&mut out, " (already present)");
    out
}

/// What a read of a file being fetched calls for.
#[derive(Clone, Copy, Debug, PartialEq, Eq, Structural)]
pub enum Chunk {
    /// There is no more: see how it ended.
    End,
    /// Write what was read, and redraw the bar if it is time to.
    Data { progress: bool },
}

/// How far a file being fetched has got.
#[derive(Clone, Copy, Debug, PartialEq, Eq)]
pub struct Transfer {
    written: u64,
    expected: Option<u64>,
}

impl Transfer {
    /// Bytes that have come.
    pub closed spec fn so_far(self) -> nat {
        self.written as nat
    }

    /// Bytes the file has, where that is known.
    pub closed spec fn whole(self) -> Option<u64> {
        self.expected
    }

    /// Begins to fetch a file, going by the header that gives its length, unless the
    /// file that is there has that many bytes.
    pub fn begin(header: Option<String>, existing: Option<u64>) -> (r: Option<Self>)
        ensures
            ({
                let length = match header {
                    Some(text) => length_in(text@),
                    None => None,
                };
                match r {
                    None => existing is Some && existing == length,
                    Some(t) => !(existing is Some && existing == length) && t.so_far() == 0
                        && t.whole() == length,
                }
            }),
    {
        let expected = content_length(header);
        if is_complete(existing, expected) {
            None
        } else {
            Some(Transfer { written: 0, expected })
        }
    }

    #[must_use]
    pub fn written(&self) -> (r: u64)
        ensures
            r == self.so_far(),
    {
        self.written
    }

    #[must_use]
    pub fn expected(&self) -> (r: Option<u64>)
        ensures
            r == self.whole(),
    {
        self.expected
    }

    /// So many bytes were read.
    pub fn read(&mut self, bytes: usize) -> (r: Chunk)
        requires
            old(self).so_far() + bytes <= u64::MAX,
        ensures
            final(self).so_far() == old(self).so_far() + bytes,
            final(self).whole() == old(self).whole(),
            r == (if bytes == 0 {
                Chunk::End
            } else {
                Chunk::Data {
                    progress: (old(self).whole() is None || old(self).whole()->0 > 4_194_304)
                        && final(self).so_far() % 8_388_608 <= 1_048_576,
                }
            }),
    {
        if bytes == 0 {
            return Chunk::End;
        }
        self.written += bytes as u64;
        Chunk::Data { progress: shows_progress(self.expected) && progress_due(self.written) }
    }

    /// How it ended: the line to print where no bar was drawn, or why the file is
    /// not kept.
    pub fn end(&self, name: &str) -> (r: Result<Option<String>, String>)
        ensures
            match r {
                Ok(line) => {
                    &&& self.whole() is None || self.whole()->0 == self.so_far()
                    &&& match line {
                        None => self.whole() is None || self.whole()->0 > 4_194_304,
                        Some(text) => self.whole() is Some && self.whole()->0 <= 4_194_304 && text@
                            == "  \u{2713} "@ + name@,
                    }
                },
                Err(message) => self.whole() is Some && self.whole()->0 != self.so_far() && message@
                    == name@ + " stopped after "@ + decimal(self.so_far()) + " of "@ + decimal(
                    self.whole()->0 as nat,
                ) + " bytes"@,
            },
    {
        match finish(name, self.written, self.expected) {
            Ok(_) => if shows_progress(self.expected) {
                Ok(None)
            } else {
                let mut line = "  \u{2713} ".to_owned();
                push_text(&mut line, name);
                Ok(Some(line))
            },
            Err(message) => Err(message),
        }
    }
}

/// Which weights are fetched: those asked for, and with none asked for, full precision
/// where a GPU can be used and quantised ones where none can. The two never share a
/// directory.
pub proof fn law_which_weights_are_fetched(precision: Precision, gpu_usable: bool)
    ensures
        precision != Precision::Auto ==> settled(precision, gpu_usable) == precision,
        settled(Precision::Auto, true) == Precision::Fp32,
        settled(Precision::Auto, false) == Precision::Int8,
        directory(Precision::Fp32) == "parakeet-tdt-0.6b-v3-fp32"@,
        directory(Precision::Int8) == "parakeet-tdt-0.6b-v3"@,
        directory(Precision::Fp32) != directory(Precision::Int8),
{
    reveal_strlit("parakeet-tdt-0.6b-v3-fp32");
    reveal_strlit("parakeet-tdt-0.6b-v3");
    assert("parakeet-tdt-0.6b-v3-fp32"@.len() != "parakeet-tdt-0.6b-v3"@.len());
}

/// What a directory holds that has been filled with the files.
pub open spec fn filled_with(names: Seq<Seq<char>>) -> Files {
    Files {
        tokenizer: names.contains("tokenizer.model"@),
        encoder: names.contains("encoder.onnx"@),
        encoder_weights: names.contains("encoder.onnx.data"@),
        vocabulary: names.contains("vocab.txt"@),
        encoder_model: names.contains("encoder-model.onnx"@),
        encoder_model_int8: names.contains("encoder-model.int8.onnx"@),
    }
}

/// What is fetched is found again: a directory with the files of a precision is a model
/// of that precision.
pub proof fn law_what_is_fetched_is_found_again()
    ensures
        filled_with(files_of(Precision::Fp32)).class() == Some((Family::ParakeetTdt, Found::Fp32)),
        filled_with(files_of(Precision::Int8)).class() == Some((Family::ParakeetTdt, Found::Int8)),
{
    reveal_strlit("vocab.txt");
    reveal_strlit("config.json");
    reveal_strlit("nemo128.onnx");
    reveal_strlit("decoder_joint-model.int8.onnx");
    reveal_strlit("encoder-model.int8.onnx");
    reveal_strlit("decoder_joint-model.onnx");
    reveal_strlit("encoder-model.onnx");
    reveal_strlit("encoder-model.onnx.data");
    reveal_strlit("tokenizer.model");
    let full = files_of(Precision::Fp32);
    let small = files_of(Precision::Int8);
    assert(full[0] == "vocab.txt"@ && small[0] == "vocab.txt"@);
    assert(full[4] == "encoder-model.onnx"@);
    assert(small[4] == "encoder-model.int8.onnx"@);
    let t = "tokenizer.model"@;
    let e = "encoder-model.onnx"@;
    assert(!full.contains(t)) by {
        assert forall|i: int| 0 <= i < full.len() implies full[i] != t by {
            assert(t.len() == 15);
        }
    }
    assert(!small.contains(t)) by {
        assert forall|i: int| 0 <= i < small.len() implies small[i] != t by {
            assert(t.len() == 15);
        }
    }
    assert(!small.contains(e)) by {
        assert forall|i: int| 0 <= i < small.len() implies small[i] != e by {
            assert(e.len() == 18);
        }
    }
}

/// A file comes from the model's address by its own name, and goes into the directory
/// by that name.
pub proof fn law_where_a_file_comes_from(dir: Seq<char>, name: Seq<char>)
    ensures
        download(dir, name).name == name,
        download(dir, name).destination == joined_path(dir, name),
        download(dir, name).url
            == "https://huggingface.co/istupakov/parakeet-tdt-0.6b-v3-onnx/resolve/main/"@ + name,
{
}

/// Which words name which precision.
pub proof fn law_which_words_name_precisions(word: Seq<char>)
    ensures
        named_precision(word) == Some(Precision::Auto) <==> word == "auto"@,
        named_precision(word) == Some(Precision::Fp32) <==> word == "fp32"@,
        named_precision(word) == Some(Precision::Int8) <==> word == "int8"@,
{
    reveal_strlit("auto");
    reveal_strlit("fp32");
    reveal_strlit("int8");
    assert("auto"@[0] == 'a' && "fp32"@[0] == 'f' && "int8"@[0] == 'i');
}

/// A length that is written out reads back as itself, with a plus sign before it or
/// not, as far as it fits.
pub proof fn law_lengths_read_back(n: nat)
    ensures
        n <= u64::MAX ==> length_in(decimal(n)) == Some(n as u64) && length_in(
            seq!['+'] + decimal(n),
        ) == Some(n as u64),
        n > u64::MAX ==> length_in(decimal(n)) is None,
{
    law_numbers_read_back(n);
    let text = decimal(n);
    lemma_digits_value(text);
    assert(text[0] != '+');
    assert((seq!['+'] + text).skip(1) =~= text);
}

proof fn lemma_digits_value(s: Seq<char>)
    requires
        all_digits(s),
    ensures
        digits_value(s) == value_of(s),
    decreases s.len(),
{
    if s.len() > 0 {
        assert forall|i: int| 0 <= i < s.drop_last().len() implies '0'
            <= #[trigger] s.drop_last()[i] <= '9' by {
            assert(s.drop_last()[i] == s[i]);
        }
        lemma_digits_value(s.drop_last());
        assert('0' <= s[s.len() - 1] <= '9');
    }
}

/// Anything that is not a number gives no length.
pub proof fn law_other_headers_give_no_length(s: Seq<char>, i: int)
    requires
        0 <= i < s.len(),
        !('0' <= s[i] <= '9'),
        i > 0 || s[0] != '+',
    ensures
        length_in(s) is None,
        length_in(Seq::empty()) is None,
        length_in(seq!['+']) is None,
{
    if s[0] == '+' {
        assert(s.skip(1)[i - 1] == s[i]);
    }
    assert(seq!['+'].skip(1) =~= Seq::<char>::empty());
}

/// While it is fetched a file has another extension than its own: what stands after
/// the last point is replaced, and where there is none, one is added.
pub proof fn law_a_partial_file_has_its_own_extension(stem: Seq<char>, extension: Seq<char>)
    requires
        stem.len() > 0,
        !extension.contains('.'),
    ensures
        part_name(stem + seq!['.'] + extension) == stem + ".part"@,
        stem.skip(1).contains('.') || part_name(stem) == stem + ".part"@,
{
    lemma_extension(stem, extension);
    if !stem.skip(1).contains('.') {
        lemma_no_extension(stem);
    }
    let name = stem + seq!['.'] + extension;
    assert(name.take(stem.len() as int) =~= stem);
}

proof fn lemma_extension(stem: Seq<char>, extension: Seq<char>)
    requires
        stem.len() > 0,
        !extension.contains('.'),
    ensures
        extension_at(stem + seq!['.'] + extension) == Some(stem.len() as int),
    decreases extension.len(),
{
    let name = stem + seq!['.'] + extension;
    if extension.len() > 0 {
        let front = extension.drop_last();
        assert(extension[extension.len() - 1] != '.');
        assert(!front.contains('.')) by {
            if front.contains('.') {
                let i = choose|i: int| 0 <= i < front.len() && front[i] == '.';
                assert(extension[i] == '.');
            }
        }
        lemma_extension(stem, front);
        assert(name.drop_last() =~= stem + seq!['.'] + front);
    } else {
        assert(name.last() == '.');
    }
}

proof fn lemma_no_extension(name: Seq<char>)
    requires
        name.len() > 0,
        !name.skip(1).contains('.'),
    ensures
        extension_at(name) is None,
    decreases name.len(),
{
    if name.len() > 1 {
        assert(name.skip(1)[name.len() - 2] == name.last());
        let front = name.drop_last();
        assert(!front.skip(1).contains('.')) by {
            if front.skip(1).contains('.') {
                let i = choose|i: int| 0 <= i < front.skip(1).len() && front.skip(1)[i] == '.';
                assert(name.skip(1)[i] == '.');
            }
        }
        lemma_no_extension(front);
    }
}

/// Every file of a precision is fetched: what both share, and its own weights.
pub proof fn law_every_file_is_fetched()
    ensures
        files_of(Precision::Fp32) == seq![
            "vocab.txt"@,
            "config.json"@,
            "nemo128.onnx"@,
            "decoder_joint-model.onnx"@,
            "encoder-model.onnx"@,
            "encoder-model.onnx.data"@,
        ],
        files_of(Precision::Int8) == seq![
            "vocab.txt"@,
            "config.json"@,
            "nemo128.onnx"@,
            "decoder_joint-model.int8.onnx"@,
            "encoder-model.int8.onnx"@,
        ],
        precision_name(Precision::Fp32) == "Fp32"@,
        precision_name(Precision::Int8) == "Int8"@,
        precision_name(Precision::Auto) == "Auto"@,
{
    assert(files_of(Precision::Fp32) =~= seq![
        "vocab.txt"@,
        "config.json"@,
        "nemo128.onnx"@,
        "decoder_joint-model.onnx"@,
        "encoder-model.onnx"@,
        "encoder-model.onnx.data"@,
    ]);
    assert(files_of(Precision::Int8) =~= seq![
        "vocab.txt"@,
        "config.json"@,
        "nemo128.onnx"@,
        "decoder_joint-model.int8.onnx"@,
        "encoder-model.int8.onnx"@,
    ]);
}

} // verus!

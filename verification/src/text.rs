//! Turning a raw transcript into the exact text to put at the cursor.

use crate::chars::{
    chars_of, len_trimmed, lowered, part, same_ignoring_case, split_words,
    texts, to_lower, trim, trim_end, trimmed, trimmed_len, words, Class,
};
use vstd::prelude::*;

verus! {

/// A user-defined replacement applied after transcription.
///
/// `spoken` may be several words (`"see sharp"` for `"C#"`); it is matched
/// against whole words only.
#[derive(Debug, PartialEq, Eq)]
pub struct DictEntry {
    pub spoken: String,
    pub written: String,
}

/// What a dictionary entry reads.
#[verifier::ext_equal]
pub struct EntryView {
    pub spoken: Seq<char>,
    pub written: Seq<char>,
}

impl View for DictEntry {
    type V = EntryView;

    open spec fn view(&self) -> EntryView {
        EntryView { spoken: self.spoken@, written: self.written@ }
    }
}

impl Clone for DictEntry {
    fn clone(&self) -> (r: Self)
        ensures
            r@ == self@,
    {
        DictEntry { spoken: self.spoken.clone(), written: self.written.clone() }
    }
}

impl DictEntry {
    pub fn new(spoken: &str, written: &str) -> (r: Self)
        ensures
            r@ == (EntryView { spoken: spoken@, written: written@ }),
    {
        DictEntry { spoken: spoken.to_owned(), written: written.to_owned() }
    }
}

#[derive(Debug, PartialEq, Eq)]
pub struct FormatConfig {
    /// Honour spoken editing commands such as "new paragraph" and "scratch that".
    pub commands: bool,
    /// Emit a trailing space so consecutive dictations flow into one another.
    pub trailing_space: bool,
    pub dictionary: Vec<DictEntry>,
}

/// What a formatting configuration says.
#[verifier::ext_equal]
pub struct FormatView {
    pub commands: bool,
    pub trailing_space: bool,
    pub dictionary: Seq<EntryView>,
}

impl FormatView {
    /// Commands on, a trailing space, and no dictionary.
    pub open spec fn standard() -> Self {
        FormatView { commands: true, trailing_space: true, dictionary: Seq::empty() }
    }
}

impl View for FormatConfig {
    type V = FormatView;

    open spec fn view(&self) -> FormatView {
        FormatView {
            commands: self.commands,
            trailing_space: self.trailing_space,
            dictionary: self.dictionary@.map_values(|e: DictEntry| e@),
        }
    }
}

impl Clone for FormatConfig {
    fn clone(&self) -> (r: Self)
        ensures
            r@ == self@,
    {
        let mut dictionary: Vec<DictEntry> = Vec::new();
        for i in 0..self.dictionary.len()
            invariant
                dictionary@.len() == i,
                forall|j: int| 0 <= j < i ==> (#[trigger] dictionary@[j])@ == self.dictionary@[j]@,
        {
            dictionary.push(self.dictionary[i].clone());
        }
        let r = FormatConfig {
            commands: self.commands,
            trailing_space: self.trailing_space,
            dictionary,
        };
        assert(r@ =~= self@);
        r
    }
}

impl Default for FormatConfig {
    fn default() -> (r: Self)
        ensures
            r@ == FormatView::standard(),
    {
        FormatConfig { commands: true, trailing_space: true, dictionary: Vec::new() }
    }
}

/// What the formatter needs to know about the text already at the cursor.
///
/// A second utterance within the continuation window is assumed to be landing
/// right after the first, and gets a separating space.
#[derive(Clone, Copy, Debug, PartialEq, Eq)]
pub struct EmitContext {
    pub continuation: bool,
}

impl Default for EmitContext {
    fn default() -> (r: Self)
        ensures
            !r.continuation,
    {
        EmitContext { continuation: false }
    }
}

/// One dictionary entry as it is matched: the words to hear, in small letters,
/// and the text to write.
pub struct Rule {
    pub spoken: Seq<Seq<char>>,
    pub written: Seq<char>,
}

/// The rule an entry stands for.
pub open spec fn rule_of(entry: EntryView) -> Rule {
    Rule { spoken: words(entry.spoken).map_values(|w: Seq<char>| lowered(w)), written: entry.written }
}

/// The rules for the entries whose spoken form has exactly `n` words, in the
/// order of the dictionary.
pub open spec fn rules_of_length(dictionary: Seq<EntryView>, n: nat) -> Seq<Rule>
    decreases dictionary.len(),
{
    if dictionary.len() == 0 {
        Seq::empty()
    } else {
        let before = rules_of_length(dictionary.drop_last(), n);
        let rule = rule_of(dictionary.last());
        if rule.spoken.len() == n {
            before.push(rule)
        } else {
            before
        }
    }
}

/// The rules with at most `n` words, longest first; among equally long ones the
/// dictionary's order is kept, and an entry without a word has no rule.
pub open spec fn rules_up_to(dictionary: Seq<EntryView>, n: nat) -> Seq<Rule>
    decreases n,
{
    if n == 0 {
        Seq::empty()
    } else {
        rules_of_length(dictionary, n) + rules_up_to(dictionary, (n - 1) as nat)
    }
}

/// The number of words in the longest spoken form.
pub open spec fn longest(dictionary: Seq<EntryView>) -> nat
    decreases dictionary.len(),
{
    if dictionary.len() == 0 {
        0
    } else {
        let before = longest(dictionary.drop_last());
        let n = rule_of(dictionary.last()).spoken.len();
        if n > before {
            n
        } else {
            before
        }
    }
}

/// The rules of a dictionary, in the order they are tried.
pub open spec fn rules(dictionary: Seq<EntryView>) -> Seq<Rule> {
    rules_up_to(dictionary, longest(dictionary))
}

/// Something a transcript turns into: a word to write, or a line break.
pub enum PieceView {
    Word(Seq<char>),
    Break(Seq<char>),
}

/// What one stretch of the transcript asks for.
pub enum Edit {
    /// Forget everything so far.
    Scratch,
    Keep(PieceView),
}

/// Does `phrase` stand at the front of `tokens`, ignoring case and punctuation
/// around each token?
pub open spec fn heard(tokens: Seq<Seq<char>>, phrase: Seq<Seq<char>>) -> bool {
    &&& 0 < phrase.len() <= tokens.len()
    &&& forall|i: int|
        0 <= i < phrase.len() ==> lowered(trim(#[trigger] tokens[i], Class::Punctuation))
            == lowered(phrase[i])
}

pub open spec fn heard_pair(tokens: Seq<Seq<char>>, first: Seq<char>, second: Seq<char>) -> bool {
    heard(tokens, seq![first, second])
}

/// The first rule that is heard at the front of `tokens`.
pub open spec fn first_rule(rules: Seq<Rule>, tokens: Seq<Seq<char>>) -> Option<Rule>
    decreases rules.len(),
{
    if rules.len() == 0 {
        None
    } else if heard(tokens, rules[0].spoken) {
        Some(rules[0])
    } else {
        first_rule(rules.skip(1), tokens)
    }
}

/// The punctuation at the end of `word`.
pub open spec fn tail_punctuation(word: Seq<char>) -> Seq<char> {
    word.skip(trimmed_len(word, Class::Punctuation) as int)
}

/// What the front of a non-empty `tokens` asks for, and how many tokens it takes.
pub open spec fn first_edit(
    rules: Seq<Rule>,
    commands: bool,
    tokens: Seq<Seq<char>>,
) -> (Edit, nat) {
    if commands && (heard_pair(tokens, "scratch"@, "that"@) || heard_pair(
        tokens,
        "delete"@,
        "that"@,
    )) {
        (Edit::Scratch, 2)
    } else if commands && heard_pair(tokens, "new"@, "paragraph"@) {
        (Edit::Keep(PieceView::Break("\n\n"@)), 2)
    } else if commands && (heard_pair(tokens, "new"@, "line"@) || heard_pair(
        tokens,
        "next"@,
        "line"@,
    )) {
        (Edit::Keep(PieceView::Break("\n"@)), 2)
    } else {
        match first_rule(rules, tokens) {
            Some(rule) => {
                let n = rule.spoken.len();
                (Edit::Keep(PieceView::Word(rule.written + tail_punctuation(tokens[n - 1]))), n)
            },
            None => (Edit::Keep(PieceView::Word(tokens[0])), 1),
        }
    }
}

/// The edits a transcript asks for, in order.
pub open spec fn edits(rules: Seq<Rule>, commands: bool, tokens: Seq<Seq<char>>) -> Seq<Edit>
    decreases tokens.len(),
{
    if tokens.len() == 0 {
        Seq::empty()
    } else {
        let (edit, n) = first_edit(rules, commands, tokens);
        if 0 < n <= tokens.len() {
            seq![edit] + edits(rules, commands, tokens.skip(n as int))
        } else {
            Seq::empty()
        }
    }
}

/// What is left after the edits: the pieces kept since the last "scratch that".
pub open spec fn kept(edits: Seq<Edit>) -> Seq<PieceView>
    decreases edits.len(),
{
    if edits.len() == 0 {
        Seq::empty()
    } else {
        match edits.last() {
            Edit::Scratch => Seq::empty(),
            Edit::Keep(piece) => kept(edits.drop_last()).push(piece),
        }
    }
}

/// `out` with one more piece after it.
pub open spec fn with_piece(out: Seq<char>, piece: PieceView) -> Seq<char> {
    match piece {
        PieceView::Break(literal) => {
            let line = trim_end(out, Class::Space);
            if line.len() == 0 {
                line
            } else {
                line + literal
            }
        },
        PieceView::Word(word) => {
            if out.len() > 0 && out.last() != '\n' {
                out.push(' ') + word
            } else {
                out + word
            }
        },
    }
}

/// The pieces one after another.
pub open spec fn joined(pieces: Seq<PieceView>) -> Seq<char>
    decreases pieces.len(),
{
    if pieces.len() == 0 {
        Seq::empty()
    } else {
        with_piece(joined(pieces.drop_last()), pieces.last())
    }
}

/// The text a transcript formats to, before the spacing around it.
pub open spec fn body(rules: Seq<Rule>, commands: bool, raw: Seq<char>) -> Seq<char> {
    trim_end(joined(kept(edits(rules, commands, words(raw)))), Class::Space)
}

/// `body` with the spaces that join it to what stands before and after it.
pub open spec fn spaced(body: Seq<char>, continuation: bool, trailing_space: bool) -> Seq<char> {
    let front = if continuation && body[0] != '\n' {
        seq![' '] + body
    } else {
        body
    };
    if trailing_space && body.last() != '\n' {
        front.push(' ')
    } else {
        front
    }
}

/// What a transcript emits, if anything.
pub open spec fn emission(
    rules: Seq<Rule>,
    commands: bool,
    trailing_space: bool,
    raw: Seq<char>,
    continuation: bool,
) -> Option<Seq<char>> {
    let text = body(rules, commands, raw);
    if text.len() == 0 {
        None
    } else {
        Some(spaced(text, continuation, trailing_space))
    }
}

#[derive(Clone, Debug)]
enum Piece {
    Word(Vec<char>),
    Break(Vec<char>),
}

impl View for Piece {
    type V = PieceView;

    closed spec fn view(&self) -> PieceView {
        match self {
            Piece::Word(w) => PieceView::Word(w@),
            Piece::Break(b) => PieceView::Break(b@),
        }
    }
}

spec fn piece_views(pieces: Seq<Piece>) -> Seq<PieceView> {
    pieces.map_values(|p: Piece| p@)
}

#[derive(Clone, Debug)]
struct Replacement {
    spoken: Vec<Vec<char>>,
    written: Vec<char>,
}

impl View for Replacement {
    type V = Rule;

    closed spec fn view(&self) -> Rule {
        Rule { spoken: texts(self.spoken@), written: self.written@ }
    }
}

spec fn rule_views(rules: Seq<Replacement>) -> Seq<Rule> {
    rules.map_values(|r: Replacement| r@)
}

/// Applies the user's dictionary and spoken commands to transcripts.
#[derive(Debug)]
pub struct Formatter {
    config: FormatConfig,
    dictionary: Vec<Replacement>,
}

impl View for Formatter {
    type V = FormatView;

    closed spec fn view(&self) -> FormatView {
        self.config@
    }
}

impl FormatView {
    /// What a transcript formats to, if anything.
    pub open spec fn formats(self, raw: Seq<char>, continuation: bool) -> Option<Seq<char>> {
        emission(rules(self.dictionary), self.commands, self.trailing_space, raw, continuation)
    }
}

impl Default for Formatter {
    fn default() -> (r: Self)
        ensures
            r@ == FormatView::standard(),
    {
        Formatter::new(FormatConfig::default())
    }
}

impl Clone for Formatter {
    fn clone(&self) -> (r: Self)
        ensures
            r@ == self@,
    {
        Formatter::new(self.config.clone())
    }
}

fn lowered_words(spoken: &str) -> (r: Vec<Vec<char>>)
    ensures
        texts(r@) == words(spoken@).map_values(|w: Seq<char>| lowered(w)),
{
    let chars = chars_of(spoken);
    let split = split_words(chars.as_slice());
    let mut out: Vec<Vec<char>> = Vec::new();
    for i in 0..split.len()
        invariant
            texts(split@) == words(spoken@),
            out@.len() == i,
            forall|j: int| 0 <= j < i ==> (#[trigger] out@[j])@ == lowered(split@[j]@),
    {
        let word = &split[i];
        let mut small: Vec<char> = Vec::new();
        for k in 0..word.len()
            invariant
                small@ == lowered(word@).take(k as int),
        {
            small.push(to_lower(word[k]));
            assert(lowered(word@).take(k + 1) =~= lowered(word@).take(k as int).push(
                lowered(word@)[k as int],
            ));
        }
        assert(small@ =~= lowered(word@));
        out.push(small);
    }
    proof {
        let want = words(spoken@).map_values(|w: Seq<char>| lowered(w));
        assert forall|j: int| 0 <= j < out@.len() implies texts(out@)[j] == want[j] by {
            assert(texts(split@)[j] == split@[j]@);
        }
        assert(texts(split@).len() == split@.len());
        assert(texts(out@) =~= want);
    }
    out
}

impl Formatter {
    #[verifier::type_invariant]
    spec fn inv(self) -> bool {
        rule_views(self.dictionary@) == rules(self.config@.dictionary)
    }

    pub fn new(config: FormatConfig) -> (r: Self)
        ensures
            r@ == config@,
    {
        let ghost entries = config@.dictionary;
        let mut top: usize = 0;
        for i in 0..config.dictionary.len()
            invariant
                entries == config@.dictionary,
                top == longest(entries.take(i as int)),
        {
            let spoken = lowered_words(config.dictionary[i].spoken.as_str());
            proof {
                let front = entries.take(i + 1);
                assert(front.drop_last() =~= entries.take(i as int));
                assert(front.last() == config.dictionary@[i as int]@);
                assert(texts(spoken@) == rule_of(front.last()).spoken);
                assert(texts(spoken@).len() == spoken@.len());
            }
            if spoken.len() > top {
                top = spoken.len();
            }
        }
        assert(entries.take(entries.len() as int) =~= entries);
        let mut dictionary: Vec<Replacement> = Vec::new();
        let mut n: usize = top;
        assert(rule_views(dictionary@) + rules_up_to(entries, top as nat) =~= rules_up_to(
            entries,
            top as nat,
        ));
        while n > 0
            invariant
                entries == config@.dictionary,
                n <= top,
                rule_views(dictionary@) + rules_up_to(entries, n as nat) == rules_up_to(
                    entries,
                    top as nat,
                ),
            decreases n,
        {
            let ghost before = rule_views(dictionary@);
            assert(before + rules_of_length(entries.take(0), n as nat) =~= before);
            for i in 0..config.dictionary.len()
                invariant
                    entries == config@.dictionary,
                    rule_views(dictionary@) == before + rules_of_length(
                        entries.take(i as int),
                        n as nat,
                    ),
            {
                let entry = &config.dictionary[i];
                let spoken = lowered_words(entry.spoken.as_str());
                let ghost front = entries.take(i + 1);
                proof {
                    assert(front.drop_last() =~= entries.take(i as int));
                    assert(front.last() == config.dictionary@[i as int]@);
                    assert(texts(spoken@) == rule_of(front.last()).spoken);
                    assert(texts(spoken@).len() == spoken@.len());
                }
                if spoken.len() == n {
                    let written = chars_of(entry.written.as_str());
                    let rule = Replacement { spoken, written };
                    let ghost done = dictionary@;
                    dictionary.push(rule);
                    proof {
                        assert(rule@ == rule_of(front.last()));
                        assert(rule_views(dictionary@) =~= rule_views(done).push(rule@));
                        assert(before + rules_of_length(front, n as nat) =~= rule_views(done).push(
                            rule@,
                        ));
                    }
                }
            }
            assert(entries.take(entries.len() as int) =~= entries);
            assert(before + (rules_of_length(entries, n as nat) + rules_up_to(
                entries,
                (n - 1) as nat,
            )) =~= rule_views(dictionary@) + rules_up_to(entries, (n - 1) as nat));
            n -= 1;
        }
        assert(rule_views(dictionary@) + rules_up_to(entries, 0) =~= rule_views(dictionary@));
        Formatter { config, dictionary }
    }

    pub fn config(&self) -> (r: &FormatConfig)
        ensures
            r@ == self@,
    {
        &self.config
    }

    /// Turn a raw transcript into the exact text to inject at the cursor.
    ///
    /// Returns `None` when the utterance formats to nothing: an empty
    /// transcript, or one entirely consumed by a "scratch that".
    pub fn format(&self, raw: &str, ctx: EmitContext) -> (r: Option<String>)
        ensures
            r is Some <==> self@.formats(raw@, ctx.continuation) is Some,
            r is Some ==> r->0@ == self@.formats(raw@, ctx.continuation)->0,
    {
        let chars = chars_of(raw);
        let tokens = split_words(chars.as_slice());
        let pieces = self.rewrite(tokens.as_slice());
        let text = render(pieces.as_slice());
        let ghost want = body(rules(self@.dictionary), self@.commands, raw@);
        assert(text@ == want);
        if text.len() == 0 {
            return None;
        }
        let mut out = String::new();
        if ctx.continuation && text[0] != '\n' {
            out.push(' ');
        }
        let ghost lead = out@;
        for i in 0..text.len()
            invariant
                out@ == lead + text@.take(i as int),
        {
            out.push(text[i]);
            assert(text@.take(i + 1) =~= text@.take(i as int).push(text@[i as int]));
            assert(lead + text@.take(i + 1) =~= (lead + text@.take(i as int)).push(text@[i as int]));
        }
        assert(text@.take(text@.len() as int) =~= text@);
        assert(out@ =~= if ctx.continuation && want[0] != '\n' {
            seq![' '] + want
        } else {
            want
        });
        if self.config.trailing_space && text[text.len() - 1] != '\n' {
            out.push(' ');
        }
        Some(out)
    }

    fn rewrite(&self, tokens: &[Vec<char>]) -> (r: Vec<Piece>)
        ensures
            piece_views(r@) == kept(
                edits(rules(self@.dictionary), self@.commands, texts(tokens@)),
            ),
    {
        proof {
            use_type_invariant(self);
        }
        let ghost rs = rules(self@.dictionary);
        let ghost commands = self@.commands;
        let ghost all = texts(tokens@);
        let mut pieces: Vec<Piece> = Vec::new();
        let ghost mut done: Seq<Edit> = Seq::empty();
        let mut i: usize = 0;
        proof {
            assert(all.skip(0) =~= all);
            assert(done + edits(rs, commands, all) =~= edits(rs, commands, all));
            assert(piece_views(pieces@) =~= kept(done));
        }
        while i < tokens.len()
            invariant
                i <= tokens@.len(),
                rs == rules(self@.dictionary),
                commands == self@.commands,
                rule_views(self.dictionary@) == rs,
                self.config.commands == commands,
                all == texts(tokens@),
                done + edits(rs, commands, all.skip(i as int)) == edits(rs, commands, all),
                piece_views(pieces@) == kept(done),
            decreases tokens@.len() - i,
        {
            let ghost rest = all.skip(i as int);
            let ghost (edit, n) = first_edit(rs, commands, rest);
            let ghost before = pieces@;
            let mut taken: usize = 0;
            let mut handled = false;
            if self.config.commands {
                if pair_at(tokens, i, "scratch", "that") || pair_at(tokens, i, "delete", "that") {
                    pieces.clear();
                    taken = 2;
                    handled = true;
                } else if pair_at(tokens, i, "new", "paragraph") {
                    pieces.push(Piece::Break(chars_of("\n\n")));
                    taken = 2;
                    handled = true;
                } else if pair_at(tokens, i, "new", "line") || pair_at(tokens, i, "next", "line") {
                    pieces.push(Piece::Break(chars_of("\n")));
                    taken = 2;
                    handled = true;
                }
            }
            if !handled {
                match self.rule_at(tokens, i) {
                    Some(k) => {
                        let rule = &self.dictionary[k];
                        let count: usize = rule.spoken.len();
                        let last = &tokens[i + count - 1];
                        let mut word = part(rule.written.as_slice(), 0, rule.written.len());
                        let cut: usize = split_trailing_punctuation(last.as_slice());
                        let mut tail = part(last.as_slice(), cut, last.len());
                        proof {
                            assert(rule@ == rs[k as int]);
                            assert(rule@.spoken.len() == count);
                            assert(rest[count - 1] == last@);
                            assert(tail@ =~= tail_punctuation(last@));
                            assert(word@ =~= rule@.written);
                        }
                        word.append(&mut tail);
                        pieces.push(Piece::Word(word));
                        taken = count;
                    },
                    None => {
                        let word = part(tokens[i].as_slice(), 0, tokens[i].len());
                        assert(word@ =~= rest[0]);
                        pieces.push(Piece::Word(word));
                        taken = 1;
                    },
                }
            }
            proof {
                assert(taken == n);
                assert(0 < n <= rest.len());
                assert(rest.skip(n as int) =~= all.skip(i + n));
                let next = done.push(edit);
                assert(next.drop_last() =~= done);
                assert(done + (seq![edit] + edits(rs, commands, all.skip(i + n))) =~= next + edits(
                    rs,
                    commands,
                    all.skip(i + n),
                ));
                match edit {
                    Edit::Scratch => {
                        assert(piece_views(pieces@) =~= kept(next));
                    },
                    Edit::Keep(piece) => {
                        assert(piece_views(pieces@) =~= piece_views(before).push(piece));
                    },
                }
                done = next;
            }
            i += taken;
        }
        proof {
            assert(all.skip(i as int) =~= Seq::<Seq<char>>::empty());
            assert(done + Seq::<Edit>::empty() =~= done);
        }
        pieces
    }

    /// The first rule heard at `tokens[at..]`.
    fn rule_at(&self, tokens: &[Vec<char>], at: usize) -> (r: Option<usize>)
        requires
            at < tokens@.len(),
        ensures
            ({
                let rs = rule_views(self.dictionary@);
                let rest = texts(tokens@).skip(at as int);
                match r {
                    Some(k) => k < rs.len() && first_rule(rs, rest) == Some(rs[k as int]) && heard(
                        rest,
                        rs[k as int].spoken,
                    ),
                    None => first_rule(rs, rest) is None,
                }
            }),
    {
        let ghost rs = rule_views(self.dictionary@);
        let ghost rest = texts(tokens@).skip(at as int);
        assert(rs.skip(0) =~= rs);
        for k in 0..self.dictionary.len()
            invariant
                at < tokens@.len(),
                rs == rule_views(self.dictionary@),
                rest == texts(tokens@).skip(at as int),
                first_rule(rs, rest) == first_rule(rs.skip(k as int), rest),
        {
            assert(rs.skip(k as int)[0] == self.dictionary@[k as int]@);
            assert(rs.skip(k as int).skip(1) =~= rs.skip(k + 1));
            if phrase_at(tokens, at, self.dictionary[k].spoken.as_slice()) {
                return Some(k);
            }
        }
        None
    }
}

/// Does `phrase` sit at `tokens[at..]`, ignoring case and punctuation? Past the end
/// there is nothing.
///
/// Transcripts come punctuated, so the token for a spoken command is as likely
/// to be `"line."` as `"line"`.
fn phrase_at(tokens: &[Vec<char>], at: usize, phrase: &[Vec<char>]) -> (r: bool)
    ensures
        r == (at < tokens@.len() && heard(texts(tokens@).skip(at as int), texts(phrase@))),
{
    let ghost rest = texts(tokens@).skip(at as int);
    let total: usize = tokens.len();
    if at >= total || phrase.len() == 0 || phrase.len() > total - at {
        return false;
    }
    for i in 0..phrase.len()
        invariant
            at + phrase@.len() <= total == tokens@.len(),
            rest == texts(tokens@).skip(at as int),
            forall|j: int|
                0 <= j < i ==> lowered(trim(#[trigger] rest[j], Class::Punctuation)) == lowered(
                    texts(phrase@)[j],
                ),
    {
        let bare = trimmed(tokens[at + i].as_slice(), Class::Punctuation);
        assert(rest[i as int] == tokens@[at + i]@);
        assert(texts(phrase@)[i as int] == phrase@[i as int]@);
        if !same_ignoring_case(bare.as_slice(), phrase[i].as_slice()) {
            return false;
        }
    }
    true
}

/// Do the two words sit at `tokens[at..]`?
fn pair_at(tokens: &[Vec<char>], at: usize, first: &str, second: &str) -> (r: bool)
    ensures
        r == (at < tokens@.len() && heard_pair(texts(tokens@).skip(at as int), first@, second@)),
{
    let mut phrase: Vec<Vec<char>> = Vec::new();
    phrase.push(chars_of(first));
    phrase.push(chars_of(second));
    assert(texts(phrase@) =~= seq![first@, second@]);
    phrase_at(tokens, at, phrase.as_slice())
}

/// Where the punctuation at the end of `word` begins.
fn split_trailing_punctuation(word: &[char]) -> (r: usize)
    ensures
        r == trimmed_len(word@, Class::Punctuation),
        r <= word@.len(),
{
    len_trimmed(word, Class::Punctuation)
}

fn render(pieces: &[Piece]) -> (r: Vec<char>)
    ensures
        r@ == trim_end(joined(piece_views(pieces@)), Class::Space),
{
    let mut out: Vec<char> = Vec::new();
    let ghost views = piece_views(pieces@);
    assert(views.take(0) =~= Seq::<PieceView>::empty());
    for i in 0..pieces.len()
        invariant
            views == piece_views(pieces@),
            out@ == joined(views.take(i as int)),
    {
        let ghost before = out@;
        proof {
            assert(views.take(i + 1).drop_last() =~= views.take(i as int));
            assert(views.take(i + 1).last() == pieces@[i as int]@);
        }
        match &pieces[i] {
            Piece::Break(literal) => {
                let n: usize = len_trimmed(out.as_slice(), Class::Space);
                out.truncate(n);
                assert(out@ =~= trim_end(before, Class::Space));
                // A leading break would indent the target application, not the text.
                if out.len() > 0 {
                    let mut more = part(literal.as_slice(), 0, literal.len());
                    assert(more@ =~= literal@);
                    out.append(&mut more);
                }
            },
            Piece::Word(word) => {
                if out.len() > 0 && out[out.len() - 1] != '\n' {
                    out.push(' ');
                }
                let mut more = part(word.as_slice(), 0, word.len());
                assert(more@ =~= word@);
                out.append(&mut more);
            },
        }
    }
    assert(views.take(views.len() as int) =~= views);
    let ghost full = out@;
    let n: usize = len_trimmed(out.as_slice(), Class::Space);
    out.truncate(n);
    assert(out@ =~= trim_end(full, Class::Space));
    out
}

} // verus!

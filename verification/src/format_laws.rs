//! What a transcript is turned into, step by step: which words are heard, what stands
//! in their place, and how it is put together.

use crate::chars::{
    is_punctuation, is_white, leading, lemma_leading, lemma_trimmed_len, lemma_words_apart, lower,
    lowered, trim, trim_end, trimmed_len, word_len, words, Class,
};
use crate::text::{
    body, edits, first_rule, heard, heard_pair, joined, kept, rule_of, rules, spaced,
    tail_punctuation, Edit, EntryView, FormatView, PieceView,
};
use crate::text_laws::{is_earliest, law_longest_phrase_wins, with_spaces};
use vstd::prelude::*;

verus! {

/// An ASCII character that prints and is no letter, digit or space.
pub open spec fn is_mark(c: char) -> bool {
    let n = c as int;
    32 < n < 127 && !(48 <= n <= 57) && !(65 <= n <= 90) && !(97 <= n <= 122)
}

/// The same character, but perhaps for the case of an ASCII letter.
pub open spec fn same_letter(a: char, b: char) -> bool {
    ||| a == b
    ||| 65 <= a as int <= 90 && b as int == a as int + 32
    ||| 65 <= b as int <= 90 && a as int == b as int + 32
}

pub open spec fn same_letters(a: Seq<char>, b: Seq<char>) -> bool {
    &&& a.len() == b.len()
    &&& forall|i: int| 0 <= i < a.len() ==> same_letter(#[trigger] a[i], b[i])
}

/// `core` is the word inside the token: what is left without the marks around it.
pub open spec fn is_inside(token: Seq<char>, core: Seq<char>) -> bool {
    exists|from: int, to: int| #[trigger] lies_inside(token, core, from, to)
}

pub open spec fn lies_inside(token: Seq<char>, core: Seq<char>, from: int, to: int) -> bool {
    &&& 0 <= from <= to <= token.len()
    &&& core == token.subrange(from, to)
    &&& forall|i: int| 0 <= i < from ==> is_mark(#[trigger] token[i])
    &&& forall|i: int| to <= i < token.len() ==> is_mark(#[trigger] token[i])
    &&& core.len() > 0 ==> !is_mark(core[0]) && !is_mark(core.last())
}

/// The token sounds like the word: without the marks around it, it has its letters.
pub open spec fn sounds_like(token: Seq<char>, word: Seq<char>) -> bool {
    same_letters(trim(token, Class::Punctuation), word)
}

/// The words of the phrase are said at the front of the tokens.
pub open spec fn is_said(tokens: Seq<Seq<char>>, phrase: Seq<Seq<char>>) -> bool {
    &&& 0 < phrase.len() <= tokens.len()
    &&& forall|i: int| 0 <= i < phrase.len() ==> sounds_like(#[trigger] tokens[i], phrase[i])
}

pub open spec fn says(tokens: Seq<Seq<char>>, first: Seq<char>, second: Seq<char>) -> bool {
    is_said(tokens, seq![first, second])
}

/// A spoken command stands at the front of the tokens.
pub open spec fn says_a_command(tokens: Seq<Seq<char>>) -> bool {
    ||| says(tokens, "scratch"@, "that"@)
    ||| says(tokens, "delete"@, "that"@)
    ||| says(tokens, "new"@, "paragraph"@)
    ||| says(tokens, "new"@, "line"@)
    ||| says(tokens, "next"@, "line"@)
}

/// The entry's spoken form stands at the front of the tokens.
pub open spec fn says_entry(tokens: Seq<Seq<char>>, entry: EntryView) -> bool {
    is_said(tokens, words(entry.spoken))
}

proof fn lemma_mark(c: char)
    ensures
        is_mark(c) == is_punctuation(c),
{
}

proof fn lemma_letter(a: char, b: char)
    ensures
        same_letter(a, b) == (lower(a) == lower(b)),
{
}

proof fn lemma_letters(a: Seq<char>, b: Seq<char>)
    ensures
        same_letters(a, b) == (lowered(a) == lowered(b)),
{
    if same_letters(a, b) {
        assert forall|i: int| 0 <= i < a.len() implies lowered(a)[i] == lowered(b)[i] by {
            lemma_letter(a[i], b[i]);
        }
        assert(lowered(a) =~= lowered(b));
    }
    if lowered(a) == lowered(b) {
        assert(lowered(a).len() == a.len() && lowered(b).len() == b.len());
        assert forall|i: int| 0 <= i < a.len() implies same_letter(#[trigger] a[i], b[i]) by {
            assert(lowered(a)[i] == lowered(b)[i]);
            lemma_letter(a[i], b[i]);
        }
    }
}

/// Trimming a token of punctuation leaves the word inside it.
pub proof fn law_the_word_inside_a_token(token: Seq<char>)
    ensures
        is_inside(token, trim(token, Class::Punctuation)),
{
    let class = Class::Punctuation;
    let from = leading(token, class) as int;
    lemma_leading(token, class);
    let rest = token.skip(from);
    lemma_trimmed_len(rest, class);
    let to = from + trimmed_len(rest, class) as int;
    let core = trim(token, class);
    assert(core =~= token.subrange(from, to));
    assert forall|i: int| 0 <= i < from implies is_mark(#[trigger] token[i]) by {
        lemma_mark(token[i]);
    }
    assert forall|i: int| to <= i < token.len() implies is_mark(#[trigger] token[i]) by {
        assert(rest[i - from] == token[i]);
        lemma_mark(token[i]);
    }
    if core.len() > 0 {
        assert(core[0] == token[from]);
        assert(core.last() == rest[trimmed_len(rest, class) - 1]);
        lemma_mark(core[0]);
        lemma_mark(core.last());
    }
    assert(lies_inside(token, core, from, to));
}

/// There is only one word inside a token.
pub proof fn law_a_token_holds_one_word(token: Seq<char>, a: Seq<char>, b: Seq<char>)
    requires
        is_inside(token, a),
        is_inside(token, b),
        a.len() > 0,
    ensures
        a == b,
{
    let (p, q) = choose|p: int, q: int| #[trigger] lies_inside(token, a, p, q);
    let (r, s) = choose|r: int, s: int| #[trigger] lies_inside(token, b, r, s);
    assert(a[0] == token[p] && a.last() == token[q - 1]);
    assert(r <= p);
    assert(q <= s);
    assert(b.len() > 0);
    assert(b[0] == token[r] && b.last() == token[s - 1]);
    assert(a =~= b);
}

/// Words are heard by their letters: whatever their case, and whatever marks stand
/// around them.
pub proof fn law_words_are_heard_by_their_letters(
    tokens: Seq<Seq<char>>,
    phrase: Seq<Seq<char>>,
)
    ensures
        heard(tokens, phrase) <==> is_said(tokens, phrase),
{
    if heard(tokens, phrase) {
        assert forall|i: int| 0 <= i < phrase.len() implies sounds_like(
            #[trigger] tokens[i],
            phrase[i],
        ) by {
            lemma_letters(trim(tokens[i], Class::Punctuation), phrase[i]);
        }
    }
    if is_said(tokens, phrase) {
        assert forall|i: int| 0 <= i < phrase.len() implies lowered(
            trim(#[trigger] tokens[i], Class::Punctuation),
        ) == lowered(phrase[i]) by {
            assert(sounds_like(tokens[i], phrase[i]));
            lemma_letters(trim(tokens[i], Class::Punctuation), phrase[i]);
        }
    }
}

/// A dictionary entry is heard by the letters of its words, and writes what it says.
pub proof fn law_entries_are_heard_by_their_letters(tokens: Seq<Seq<char>>, entry: EntryView)
    ensures
        heard(tokens, rule_of(entry).spoken) <==> says_entry(tokens, entry),
        rule_of(entry).spoken.len() == words(entry.spoken).len(),
        rule_of(entry).written == entry.written,
{
    let spoken = rule_of(entry).spoken;
    let plain = words(entry.spoken);
    assert forall|i: int| 0 <= i < plain.len() implies lowered(#[trigger] spoken[i]) == lowered(
        plain[i],
    ) by {
        assert(spoken[i] == lowered(plain[i]));
        assert forall|c: char| lower(#[trigger] lower(c)) == lower(c) by {}
        assert(lowered(lowered(plain[i])) =~= lowered(plain[i]));
    }
    assert(heard(tokens, spoken) == heard(tokens, plain)) by {
        if heard(tokens, spoken) {
            assert forall|i: int| 0 <= i < plain.len() implies lowered(
                trim(#[trigger] tokens[i], Class::Punctuation),
            ) == lowered(plain[i]) by {
                assert(lowered(spoken[i]) == lowered(plain[i]));
            }
        }
        if heard(tokens, plain) {
            assert forall|i: int| 0 <= i < spoken.len() implies lowered(
                trim(#[trigger] tokens[i], Class::Punctuation),
            ) == lowered(spoken[i]) by {
                assert(lowered(spoken[i]) == lowered(plain[i]));
            }
        }
    }
    law_words_are_heard_by_their_letters(tokens, plain);
}

proof fn lemma_pair(tokens: Seq<Seq<char>>, first: Seq<char>, second: Seq<char>)
    ensures
        heard_pair(tokens, first, second) == says(tokens, first, second),
        says(tokens, first, second) ==> trim(tokens[0], Class::Punctuation).len() == first.len()
            && trim(tokens[1], Class::Punctuation).len() == second.len(),
{
    law_words_are_heard_by_their_letters(tokens, seq![first, second]);
    if says(tokens, first, second) {
        assert(sounds_like(tokens[0], seq![first, second][0]));
        assert(sounds_like(tokens[1], seq![first, second][1]));
    }
}

proof fn lemma_pairs(tokens: Seq<Seq<char>>)
    ensures
        heard_pair(tokens, "scratch"@, "that"@) == says(tokens, "scratch"@, "that"@),
        heard_pair(tokens, "delete"@, "that"@) == says(tokens, "delete"@, "that"@),
        heard_pair(tokens, "new"@, "paragraph"@) == says(tokens, "new"@, "paragraph"@),
        heard_pair(tokens, "new"@, "line"@) == says(tokens, "new"@, "line"@),
        heard_pair(tokens, "next"@, "line"@) == says(tokens, "next"@, "line"@),
        says(tokens, "new"@, "paragraph"@) ==> !says(tokens, "scratch"@, "that"@) && !says(
            tokens,
            "delete"@,
            "that"@,
        ),
        says(tokens, "new"@, "line"@) || says(tokens, "next"@, "line"@) ==> !says(
            tokens,
            "scratch"@,
            "that"@,
        ) && !says(tokens, "delete"@, "that"@) && !says(tokens, "new"@, "paragraph"@),
{
    lemma_pair(tokens, "scratch"@, "that"@);
    lemma_pair(tokens, "delete"@, "that"@);
    lemma_pair(tokens, "new"@, "paragraph"@);
    lemma_pair(tokens, "new"@, "line"@);
    lemma_pair(tokens, "next"@, "line"@);
    reveal_strlit("scratch");
    reveal_strlit("delete");
    reveal_strlit("that");
    reveal_strlit("new");
    reveal_strlit("next");
    reveal_strlit("paragraph");
    reveal_strlit("line");
}

/// A spoken command does what it says and takes its two words, whatever is in the
/// dictionary: "scratch that" and "delete that" forget what came before, "new
/// paragraph" is two line breaks, "new line" and "next line" are one.
pub proof fn law_what_commands_do(dictionary: Seq<EntryView>, tokens: Seq<Seq<char>>)
    ensures
        says(tokens, "scratch"@, "that"@) || says(tokens, "delete"@, "that"@) ==> edits(
            rules(dictionary),
            true,
            tokens,
        ) == seq![Edit::Scratch] + edits(rules(dictionary), true, tokens.skip(2)),
        says(tokens, "new"@, "paragraph"@) ==> edits(rules(dictionary), true, tokens) == seq![
            Edit::Keep(PieceView::Break(seq!['\n', '\n'])),
        ] + edits(rules(dictionary), true, tokens.skip(2)),
        says(tokens, "new"@, "line"@) || says(tokens, "next"@, "line"@) ==> edits(
            rules(dictionary),
            true,
            tokens,
        ) == seq![Edit::Keep(PieceView::Break(seq!['\n']))] + edits(
            rules(dictionary),
            true,
            tokens.skip(2),
        ),
{
    lemma_pairs(tokens);
    reveal_strlit("\n");
    reveal_strlit("\n\n");
    assert("\n"@ =~= seq!['\n']);
    assert("\n\n"@ =~= seq!['\n', '\n']);
}

/// A token at which no command and no entry is heard is kept as it is, as one word,
/// and takes just itself.
pub proof fn law_other_words_are_kept_as_they_are(
    dictionary: Seq<EntryView>,
    commands: bool,
    tokens: Seq<Seq<char>>,
)
    requires
        tokens.len() > 0,
        commands ==> !says_a_command(tokens),
        forall|i: int| 0 <= i < dictionary.len() ==> !says_entry(tokens, #[trigger] dictionary[i]),
    ensures
        edits(rules(dictionary), commands, tokens) == seq![
            Edit::Keep(PieceView::Word(tokens[0])),
        ] + edits(rules(dictionary), commands, tokens.skip(1)),
{
    lemma_pairs(tokens);
    law_longest_phrase_wins(dictionary, tokens);
    if first_rule(rules(dictionary), tokens) is Some {
        let r = first_rule(rules(dictionary), tokens)->0;
        let k = choose|k: int| #[trigger] is_earliest(dictionary, tokens, r, k);
        law_entries_are_heard_by_their_letters(tokens, dictionary[k]);
        assert(!says_entry(tokens, dictionary[k]));
    }
}

/// The marks at the end of a token.
pub open spec fn is_tail(token: Seq<char>, tail: Seq<char>) -> bool {
    &&& tail.len() <= token.len()
    &&& tail == token.skip(token.len() - tail.len())
    &&& forall|i: int| 0 <= i < tail.len() ==> is_mark(#[trigger] tail[i])
    &&& tail.len() < token.len() ==> !is_mark(token[token.len() - tail.len() - 1])
}

/// A dictionary entry that is heard where no command is stands in place of its words
/// and of no others, followed by the marks that stood at the end of the last of them:
/// unless a longer entry is heard there too, or an earlier one that is as long.
pub proof fn law_what_dictionary_entries_do(
    dictionary: Seq<EntryView>,
    commands: bool,
    tokens: Seq<Seq<char>>,
    k: int,
    tail: Seq<char>,
)
    requires
        0 <= k < dictionary.len(),
        commands ==> !says_a_command(tokens),
        says_entry(tokens, dictionary[k]),
        forall|i: int|
            0 <= i < dictionary.len() && says_entry(tokens, #[trigger] dictionary[i]) ==> words(
                dictionary[i].spoken,
            ).len() <= words(dictionary[k].spoken).len(),
        forall|i: int|
            0 <= i < k && says_entry(tokens, #[trigger] dictionary[i]) ==> words(
                dictionary[i].spoken,
            ).len() < words(dictionary[k].spoken).len(),
        is_tail(tokens[words(dictionary[k].spoken).len() - 1], tail),
    ensures
        edits(rules(dictionary), commands, tokens) == seq![
            Edit::Keep(PieceView::Word(dictionary[k].written + tail)),
        ] + edits(
            rules(dictionary),
            commands,
            tokens.skip(words(dictionary[k].spoken).len() as int),
        ),
{
    lemma_pairs(tokens);
    law_longest_phrase_wins(dictionary, tokens);
    law_entries_are_heard_by_their_letters(tokens, dictionary[k]);
    let n = words(dictionary[k].spoken).len();
    assert(first_rule(rules(dictionary), tokens) is Some) by {
        if first_rule(rules(dictionary), tokens) is None {
            assert(!heard(tokens, rule_of(dictionary[k]).spoken));
        }
    }
    let r = first_rule(rules(dictionary), tokens)->0;
    let j = choose|j: int| #[trigger] is_earliest(dictionary, tokens, r, j);
    law_entries_are_heard_by_their_letters(tokens, dictionary[j]);
    assert(says_entry(tokens, dictionary[j]));
    assert(rule_of(dictionary[k]).spoken.len() <= r.spoken.len());
    if j < k {
        assert(words(dictionary[j].spoken).len() < n);
    } else if k < j {
        assert(rule_of(dictionary[k]).spoken.len() != r.spoken.len());
    }
    let token = tokens[n - 1];
    lemma_trimmed_len(token, Class::Punctuation);
    let keep = trimmed_len(token, Class::Punctuation) as int;
    assert(tail =~= tail_punctuation(token)) by {
        let other = token.len() - tail.len();
        if keep < other {
            lemma_mark(token[other - 1]);
        } else if other < keep {
            assert(tail[keep - 1 - other] == token[keep - 1]);
            lemma_mark(token[keep - 1]);
        }
    }
}

/// Where nothing is scratched, every piece is kept, in order.
pub proof fn law_without_a_scratch_everything_is_kept(es: Seq<Edit>)
    requires
        forall|i: int| 0 <= i < es.len() ==> #[trigger] es[i] !is Scratch,
    ensures
        kept(es).len() == es.len(),
        forall|i: int| 0 <= i < es.len() ==> #[trigger] es[i] == Edit::Keep(kept(es)[i]),
    decreases es.len(),
{
    if es.len() > 0 {
        let front = es.drop_last();
        assert forall|i: int| 0 <= i < front.len() implies #[trigger] front[i] !is Scratch by {
            assert(front[i] == es[i]);
        }
        law_without_a_scratch_everything_is_kept(front);
        assert(es.last() == es[es.len() - 1]);
        assert forall|i: int| 0 <= i < es.len() implies #[trigger] es[i] == Edit::Keep(
            kept(es)[i],
        ) by {
            if i < front.len() {
                assert(front[i] == es[i]);
            }
        }
    }
}

/// One more word is put behind what stands there with one space between, and with none
/// at the start and after a line break.
pub proof fn law_one_more_word(pieces: Seq<PieceView>, word: Seq<char>)
    ensures
        joined(Seq::<PieceView>::empty()) == Seq::<char>::empty(),
        ({
            let before = joined(pieces);
            let after = joined(pieces.push(PieceView::Word(word)));
            if before.len() == 0 || before.last() == '\n' {
                after == before + word
            } else {
                after == before + seq![' '] + word
            }
        }),
{
    assert(pieces.push(PieceView::Word(word)).drop_last() =~= pieces);
    let before = joined(pieces);
    assert(before.push(' ') =~= before + seq![' ']);
}

/// A line break is put behind what stands there, in place of the spaces at its end;
/// at the start there is none.
pub proof fn law_one_more_break(
    pieces: Seq<PieceView>,
    literal: Seq<char>,
    text: Seq<char>,
    spaces: Seq<char>,
)
    requires
        joined(pieces) == text + spaces,
        forall|i: int| 0 <= i < spaces.len() ==> #[trigger] spaces[i] == ' ',
        text.len() > 0 ==> text.last() != ' ',
    ensures
        joined(pieces.push(PieceView::Break(literal))) == (if text.len() == 0 {
            text
        } else {
            text + literal
        }),
{
    assert(pieces.push(PieceView::Break(literal)).drop_last() =~= pieces);
    lemma_without_spaces(text, spaces);
}

proof fn lemma_without_spaces(text: Seq<char>, spaces: Seq<char>)
    requires
        forall|i: int| 0 <= i < spaces.len() ==> #[trigger] spaces[i] == ' ',
        text.len() > 0 ==> text.last() != ' ',
    ensures
        trim_end(text + spaces, Class::Space) == text,
{
    let all = text + spaces;
    lemma_trimmed_len(all, Class::Space);
    let n = trimmed_len(all, Class::Space);
    if n < text.len() {
        assert(all[text.len() - 1] == text.last());
        assert(Class::Space.has(all[text.len() - 1]));
    } else if n > text.len() {
        assert(all[n - 1] == spaces[n - 1 - text.len()]);
    }
    assert(trim_end(all, Class::Space) =~= text);
}

/// What is emitted is the body with the spaces that join it to its surroundings: one
/// before it where it continues earlier text and does not begin with a line break, one
/// after it where that is wanted and it does not end with one. The body is the pieces
/// kept, put together, without spaces at the end. Where it is empty, nothing is
/// emitted.
pub proof fn law_what_is_emitted(
    config: FormatView,
    raw: Seq<char>,
    continuation: bool,
    text: Seq<char>,
    spaces: Seq<char>,
)
    requires
        joined(kept(edits(rules(config.dictionary), config.commands, words(raw)))) == text + spaces,
        forall|i: int| 0 <= i < spaces.len() ==> #[trigger] spaces[i] == ' ',
        text.len() > 0 ==> text.last() != ' ',
    ensures
        body(rules(config.dictionary), config.commands, raw) == text,
        text.len() == 0 ==> config.formats(raw, continuation) is None,
        text.len() > 0 ==> config.formats(raw, continuation) == Some(
            (if continuation && text[0] != '\n' {
                seq![' ']
            } else {
                Seq::empty()
            }) + text + (if config.trailing_space && text.last() != '\n' {
                seq![' ']
            } else {
                Seq::empty()
            }),
        ),
{
    lemma_without_spaces(text, spaces);
    if text.len() > 0 {
        let out = spaced(text, continuation, config.trailing_space);
        assert(out =~= (if continuation && text[0] != '\n' {
            seq![' ']
        } else {
            Seq::empty()
        }) + text + (if config.trailing_space && text.last() != '\n' {
            seq![' ']
        } else {
            Seq::empty()
        }));
    }
}

/// No command and no entry is heard anywhere in the tokens.
pub open spec fn is_ordinary(config: FormatView, tokens: Seq<Seq<char>>) -> bool {
    forall|j: int|
        0 <= j < tokens.len() ==> {
            let rest = #[trigger] tokens.skip(j);
            &&& config.commands ==> !says_a_command(rest)
            &&& forall|i: int|
                0 <= i < config.dictionary.len() ==> !says_entry(
                    rest,
                    #[trigger] config.dictionary[i],
                )
        }
}

proof fn lemma_ordinary_edits(config: FormatView, tokens: Seq<Seq<char>>)
    requires
        is_ordinary(config, tokens),
    ensures
        edits(rules(config.dictionary), config.commands, tokens) == tokens.map_values(
            |t: Seq<char>| Edit::Keep(PieceView::Word(t)),
        ),
    decreases tokens.len(),
{
    let es = edits(rules(config.dictionary), config.commands, tokens);
    if tokens.len() > 0 {
        assert(tokens.skip(0) =~= tokens);
        law_other_words_are_kept_as_they_are(config.dictionary, config.commands, tokens);
        let rest = tokens.skip(1);
        assert(is_ordinary(config, rest)) by {
            assert forall|j: int| 0 <= j < rest.len() implies {
                let later = #[trigger] rest.skip(j);
                &&& config.commands ==> !says_a_command(later)
                &&& forall|i: int|
                    0 <= i < config.dictionary.len() ==> !says_entry(
                        later,
                        #[trigger] config.dictionary[i],
                    )
            } by {
                assert(rest.skip(j) =~= tokens.skip(j + 1));
            }
        }
        lemma_ordinary_edits(config, rest);
        assert(es =~= tokens.map_values(|t: Seq<char>| Edit::Keep(PieceView::Word(t))));
    } else {
        assert(es =~= tokens.map_values(|t: Seq<char>| Edit::Keep(PieceView::Word(t))));
    }
}

/// Where no command and no dictionary entry is heard, the transcript's words are
/// emitted unchanged with one space between each two, whatever the settings.
pub proof fn law_ordinary_speech_passes_through(config: FormatView, raw: Seq<char>)
    requires
        is_ordinary(config, words(raw)),
    ensures
        body(rules(config.dictionary), config.commands, raw) == with_spaces(words(raw)),
{
    let plain = FormatView { dictionary: Seq::empty(), commands: false, ..config };
    let tokens = words(raw);
    lemma_ordinary_edits(config, tokens);
    assert(is_ordinary(plain, tokens));
    lemma_ordinary_edits(plain, tokens);
    crate::text_laws::law_without_commands_words_pass_through(raw);
}

/// The words of a text are its runs of anything but white space: none in white space,
/// one in a run, and those of both parts where white space stands between them.
pub proof fn law_what_words_are(
    run: Seq<char>,
    white: Seq<char>,
    first: Seq<char>,
    gap: char,
    second: Seq<char>,
)
    requires
        run.len() > 0,
        forall|i: int| 0 <= i < run.len() ==> !is_white(#[trigger] run[i]),
        forall|i: int| 0 <= i < white.len() ==> is_white(#[trigger] white[i]),
        is_white(gap),
    ensures
        words(run) == seq![run],
        words(white) == Seq::<Seq<char>>::empty(),
        words(first.push(gap) + second) == words(first) + words(second),
{
    lemma_words_apart(first, gap, second);
    lemma_leading(run, Class::White);
    assert(leading(run, Class::White) == 0) by {
        if leading(run, Class::White) > 0 {
            assert(is_white(run[0]));
        }
    }
    assert(run.skip(0) =~= run);
    crate::chars::lemma_word_len(run);
    assert(word_len(run) == run.len()) by {
        if word_len(run) < run.len() {
            assert(is_white(run[word_len(run) as int]));
        }
    }
    assert(run.take(run.len() as int) =~= run);
    let nothing = run.skip(run.len() as int);
    assert(nothing =~= Seq::<char>::empty());
    assert(words(nothing) =~= Seq::<Seq<char>>::empty()) by {
        lemma_leading(nothing, Class::White);
    }
    assert(words(run) =~= seq![run]);
    lemma_leading(white, Class::White);
    let n = leading(white, Class::White);
    assert(n == white.len()) by {
        if n < white.len() {
            assert(is_white(white[n as int]));
        }
    }
    assert(white.skip(n as int) =~= Seq::<char>::empty());
    assert(words(white) =~= Seq::<Seq<char>>::empty());
}

/// White space in ASCII is the space and the five controls that move the cursor.
pub proof fn law_white_space_in_ascii(c: char)
    requires
        (c as int) < 128,
    ensures
        is_white(c) <==> c as int == 32 || 9 <= c as int <= 13,
{
}

} // verus!

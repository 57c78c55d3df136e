//! What holds of formatting for every transcript and every dictionary.

use crate::chars::{
    is_white, leading, lemma_leading, lemma_trimmed_len, lemma_words, lemma_words_apart, lowered,
    trim, trim_end, trimmed_len, words, Class,
};
use crate::text::{
    body, edits, first_edit, first_rule, heard, heard_pair, joined, kept, longest, rule_of, rules,
    rules_of_length, rules_up_to, spaced, tail_punctuation, Edit, EntryView, FormatView, PieceView,
    Rule,
};
use vstd::prelude::*;

verus! {

/// `rule` comes from an entry of the dictionary.
pub open spec fn from_dictionary(dictionary: Seq<EntryView>, rule: Rule) -> bool {
    exists|i: int| 0 <= i < dictionary.len() && rule == rule_of(#[trigger] dictionary[i])
}

proof fn lemma_rules_of_length(dictionary: Seq<EntryView>, n: nat)
    ensures
        forall|k: int|
            0 <= k < rules_of_length(dictionary, n).len() ==> {
                let r = #[trigger] rules_of_length(dictionary, n)[k];
                r.spoken.len() == n && from_dictionary(dictionary, r)
            },
        forall|i: int|
            0 <= i < dictionary.len() && rule_of(#[trigger] dictionary[i]).spoken.len() == n
                ==> rules_of_length(dictionary, n).contains(rule_of(dictionary[i])),
    decreases dictionary.len(),
{
    if dictionary.len() > 0 {
        let front = dictionary.drop_last();
        let rule = rule_of(dictionary.last());
        let before = rules_of_length(front, n);
        let all = rules_of_length(dictionary, n);
        lemma_rules_of_length(front, n);
        assert forall|k: int| 0 <= k < all.len() implies {
            let r = #[trigger] all[k];
            r.spoken.len() == n && from_dictionary(dictionary, r)
        } by {
            if k < before.len() {
                assert(all[k] == before[k]);
                let i = choose|i: int| 0 <= i < front.len() && before[k] == rule_of(#[trigger] front[i]);
                assert(dictionary[i] == front[i]);
            } else {
                assert(dictionary[dictionary.len() - 1] == dictionary.last());
            }
        }
        assert forall|i: int|
            0 <= i < dictionary.len() && rule_of(#[trigger] dictionary[i]).spoken.len()
                == n implies all.contains(rule_of(dictionary[i])) by {
            if i < dictionary.len() - 1 {
                assert(front[i] == dictionary[i]);
                let k = choose|k: int| 0 <= k < before.len() && before[k] == rule_of(dictionary[i]);
                assert(all[k] == before[k]);
            } else {
                assert(all[all.len() - 1] == rule);
            }
        }
    }
}

proof fn lemma_longest(dictionary: Seq<EntryView>)
    ensures
        forall|i: int|
            0 <= i < dictionary.len() ==> rule_of(#[trigger] dictionary[i]).spoken.len() <= longest(
                dictionary,
            ),
    decreases dictionary.len(),
{
    if dictionary.len() > 0 {
        let front = dictionary.drop_last();
        lemma_longest(front);
        assert forall|i: int| 0 <= i < dictionary.len() implies rule_of(
            #[trigger] dictionary[i],
        ).spoken.len() <= longest(dictionary) by {
            if i < dictionary.len() - 1 {
                assert(front[i] == dictionary[i]);
            }
        }
    }
}

/// The rules with at most `n` words come from the dictionary, are not longer than
/// `n`, are in order of falling length, and leave none out.
proof fn lemma_rules_up_to(dictionary: Seq<EntryView>, n: nat)
    ensures
        forall|k: int|
            0 <= k < rules_up_to(dictionary, n).len() ==> {
                let r = #[trigger] rules_up_to(dictionary, n)[k];
                0 < r.spoken.len() <= n && from_dictionary(dictionary, r)
            },
        forall|j: int, k: int|
            0 <= j <= k < rules_up_to(dictionary, n).len() ==> (#[trigger] rules_up_to(
                dictionary,
                n,
            )[j]).spoken.len() >= (#[trigger] rules_up_to(dictionary, n)[k]).spoken.len(),
        forall|i: int|
            0 <= i < dictionary.len() && 0 < rule_of(#[trigger] dictionary[i]).spoken.len() <= n
                ==> rules_up_to(dictionary, n).contains(rule_of(dictionary[i])),
    decreases n,
{
    if n > 0 {
        let m = (n - 1) as nat;
        let top = rules_of_length(dictionary, n);
        let rest = rules_up_to(dictionary, m);
        let all = rules_up_to(dictionary, n);
        lemma_rules_of_length(dictionary, n);
        lemma_rules_up_to(dictionary, m);
        assert forall|k: int| 0 <= k < all.len() implies {
            let r = #[trigger] all[k];
            0 < r.spoken.len() <= n && from_dictionary(dictionary, r)
        } by {
            if k < top.len() {
                assert(all[k] == top[k]);
            } else {
                assert(all[k] == rest[k - top.len()]);
            }
        }
        assert forall|j: int, k: int| 0 <= j <= k < all.len() implies (
        #[trigger] all[j]).spoken.len() >= (#[trigger] all[k]).spoken.len() by {
            if k < top.len() {
                assert(all[j] == top[j]);
                assert(all[k] == top[k]);
            } else if j < top.len() {
                assert(all[j] == top[j]);
                assert(all[k] == rest[k - top.len()]);
            } else {
                assert(all[j] == rest[j - top.len()]);
                assert(all[k] == rest[k - top.len()]);
            }
        }
        assert forall|i: int|
            0 <= i < dictionary.len() && 0 < rule_of(#[trigger] dictionary[i]).spoken.len()
                <= n implies all.contains(rule_of(dictionary[i])) by {
            let r = rule_of(dictionary[i]);
            if r.spoken.len() == n {
                let k = choose|k: int| 0 <= k < top.len() && top[k] == r;
                assert(all[k] == r);
            } else {
                let k = choose|k: int| 0 <= k < rest.len() && rest[k] == r;
                assert(all[top.len() + k] == r);
            }
        }
    }
}

proof fn lemma_first_rule(rs: Seq<Rule>, tokens: Seq<Seq<char>>)
    ensures
        match first_rule(rs, tokens) {
            Some(r) => exists|k: int|
                0 <= k < rs.len() && r == #[trigger] rs[k] && heard(tokens, rs[k].spoken) && (forall|
                    j: int,
                |
                    0 <= j < k ==> !heard(tokens, (#[trigger] rs[j]).spoken)),
            None => forall|j: int| 0 <= j < rs.len() ==> !heard(tokens, (#[trigger] rs[j]).spoken),
        },
    decreases rs.len(),
{
    if rs.len() > 0 && !heard(tokens, rs[0].spoken) {
        let rest = rs.skip(1);
        lemma_first_rule(rest, tokens);
        match first_rule(rs, tokens) {
            Some(r) => {
                let k = choose|k: int|
                    0 <= k < rest.len() && r == #[trigger] rest[k] && heard(tokens, rest[k].spoken) && (
                    forall|j: int| 0 <= j < k ==> !heard(tokens, (#[trigger] rest[j]).spoken));
                assert(rs[k + 1] == rest[k]);
                assert forall|j: int| 0 <= j < k + 1 implies !heard(
                    tokens,
                    (#[trigger] rs[j]).spoken,
                ) by {
                    if j > 0 {
                        assert(rest[j - 1] == rs[j]);
                    }
                }
            },
            None => {
                assert forall|j: int| 0 <= j < rs.len() implies !heard(
                    tokens,
                    (#[trigger] rs[j]).spoken,
                ) by {
                    if j > 0 {
                        assert(rest[j - 1] == rs[j]);
                    }
                }
            },
        }
    } else if rs.len() > 0 {
        assert(rs[0] == rs[0]);
    }
}

/// The rule is that of the entry at `k`, and no earlier entry heard there is as long.
pub open spec fn is_earliest(
    dictionary: Seq<EntryView>,
    tokens: Seq<Seq<char>>,
    rule: Rule,
    k: int,
) -> bool {
    &&& 0 <= k < dictionary.len()
    &&& rule == rule_of(dictionary[k])
    &&& forall|i: int|
        0 <= i < k && heard(tokens, rule_of(#[trigger] dictionary[i]).spoken) ==> rule_of(
            dictionary[i],
        ).spoken.len() != rule.spoken.len()
}

proof fn lemma_first_rule_of_both(a: Seq<Rule>, b: Seq<Rule>, tokens: Seq<Seq<char>>)
    ensures
        first_rule(a + b, tokens) == (match first_rule(a, tokens) {
            Some(r) => Some(r),
            None => first_rule(b, tokens),
        }),
    decreases a.len(),
{
    if a.len() == 0 {
        assert(a + b =~= b);
    } else {
        assert((a + b).skip(1) =~= a.skip(1) + b);
        lemma_first_rule_of_both(a.skip(1), b, tokens);
    }
}

proof fn lemma_earliest_of_length(dictionary: Seq<EntryView>, tokens: Seq<Seq<char>>, n: nat)
    ensures
        match first_rule(rules_of_length(dictionary, n), tokens) {
            Some(r) => r.spoken.len() == n && exists|k: int| #[trigger]
                is_earliest(dictionary, tokens, r, k),
            None => forall|i: int|
                0 <= i < dictionary.len() && heard(
                    tokens,
                    rule_of(#[trigger] dictionary[i]).spoken,
                ) ==> rule_of(dictionary[i]).spoken.len() != n,
        },
    decreases dictionary.len(),
{
    if dictionary.len() > 0 {
        let front = dictionary.drop_last();
        let before = rules_of_length(front, n);
        let last = rule_of(dictionary.last());
        lemma_earliest_of_length(front, tokens, n);
        if last.spoken.len() == n {
            assert(before.push(last) =~= before + seq![last]);
            lemma_first_rule_of_both(before, seq![last], tokens);
            assert(seq![last].skip(1) =~= Seq::<Rule>::empty());
            assert(first_rule(seq![last].skip(1), tokens) is None);
            assert(seq![last][0] == last);
        }
        assert forall|i: int| 0 <= i < front.len() implies #[trigger] dictionary[i]
            == front[i] by {}
        match first_rule(before, tokens) {
            Some(r) => {
                let k = choose|k: int| #[trigger] is_earliest(front, tokens, r, k);
                assert(dictionary[k] == front[k]);
                assert(is_earliest(dictionary, tokens, r, k));
            },
            None => {
                if last.spoken.len() == n && heard(tokens, last.spoken) {
                    assert(is_earliest(dictionary, tokens, last, dictionary.len() - 1));
                }
            },
        }
    }
}

proof fn lemma_earliest_up_to(dictionary: Seq<EntryView>, tokens: Seq<Seq<char>>, n: nat)
    ensures
        first_rule(rules_up_to(dictionary, n), tokens) matches Some(r) ==> exists|k: int|
            #[trigger]
            is_earliest(dictionary, tokens, r, k),
    decreases n,
{
    if n > 0 {
        let m = (n - 1) as nat;
        lemma_earliest_of_length(dictionary, tokens, n);
        lemma_earliest_up_to(dictionary, tokens, m);
        lemma_first_rule_of_both(
            rules_of_length(dictionary, n),
            rules_up_to(dictionary, m),
            tokens,
        );
    }
}

/// The longest dictionary phrase wins: what is applied at the front of the
/// remaining words is an entry that is heard there, and no entry heard there is
/// longer. Nothing is applied exactly when no entry is heard. Among equally long
/// entries the one that stands first in the dictionary wins.
pub proof fn law_longest_phrase_wins(dictionary: Seq<EntryView>, tokens: Seq<Seq<char>>)
    ensures
        match first_rule(rules(dictionary), tokens) {
            Some(r) => {
                &&& from_dictionary(dictionary, r)
                &&& heard(tokens, r.spoken)
                &&& forall|i: int|
                    0 <= i < dictionary.len() && heard(
                        tokens,
                        rule_of(#[trigger] dictionary[i]).spoken,
                    ) ==> rule_of(dictionary[i]).spoken.len() <= r.spoken.len()
                &&& exists|k: int| #[trigger] is_earliest(dictionary, tokens, r, k)
            },
            None => forall|i: int|
                0 <= i < dictionary.len() ==> !heard(
                    tokens,
                    rule_of(#[trigger] dictionary[i]).spoken,
                ),
        },
{
    lemma_earliest_up_to(dictionary, tokens, longest(dictionary));
    let rs = rules(dictionary);
    lemma_longest(dictionary);
    lemma_rules_up_to(dictionary, longest(dictionary));
    lemma_first_rule(rs, tokens);
    match first_rule(rs, tokens) {
        Some(r) => {
            let k = choose|k: int|
                0 <= k < rs.len() && r == #[trigger] rs[k] && heard(tokens, rs[k].spoken) && (forall|
                    j: int,
                |
                    0 <= j < k ==> !heard(tokens, (#[trigger] rs[j]).spoken));
            assert forall|i: int|
                0 <= i < dictionary.len() && heard(
                    tokens,
                    rule_of(#[trigger] dictionary[i]).spoken,
                ) implies rule_of(dictionary[i]).spoken.len() <= r.spoken.len() by {
                let other = rule_of(dictionary[i]);
                assert(rs.contains(other));
                let j = choose|j: int| 0 <= j < rs.len() && rs[j] == other;
                assert(heard(tokens, rs[j].spoken));
                assert(rs[k].spoken.len() >= rs[j].spoken.len());
            }
        },
        None => {
            assert forall|i: int| 0 <= i < dictionary.len() implies !heard(
                tokens,
                rule_of(#[trigger] dictionary[i]).spoken,
            ) by {
                let other = rule_of(dictionary[i]);
                if other.spoken.len() > 0 {
                    assert(rs.contains(other));
                    let j = choose|j: int| 0 <= j < rs.len() && rs[j] == other;
                    assert(!heard(tokens, rs[j].spoken));
                }
            }
        },
    }
}

/// "Scratch that" discards everything before it: what came before makes no
/// difference to what is kept.
pub proof fn law_scratch_discards_what_came_before(before: Seq<Edit>, after: Seq<Edit>)
    ensures
        kept(before.push(Edit::Scratch) + after) == kept(after),
    decreases after.len(),
{
    let all = before.push(Edit::Scratch) + after;
    if after.len() == 0 {
        assert(all =~= before.push(Edit::Scratch));
        assert(kept(all) =~= kept(after));
    } else {
        law_scratch_discards_what_came_before(before, after.drop_last());
        assert(all.drop_last() =~= before.push(Edit::Scratch) + after.drop_last());
        assert(all.last() == after.last());
    }
}

/// The text is "scratch that" or "delete that", however it is written.
pub open spec fn scratches(command: Seq<char>) -> bool {
    let said = words(command);
    said.len() == 2 && (heard_pair(said, "scratch"@, "that"@) || heard_pair(
        said,
        "delete"@,
        "that"@,
    ))
}

/// Without a dictionary "scratch that" is heard wherever it is said: the edits are
/// some for what came before it, the scratch, and those for what follows alone.
proof fn lemma_scratch_is_heard(
    before: Seq<Seq<char>>,
    command: Seq<char>,
    after: Seq<Seq<char>>,
) -> (earlier: Seq<Edit>)
    requires
        scratches(command),
    ensures
        edits(rules(Seq::<EntryView>::empty()), true, before + words(command) + after)
            == earlier.push(Edit::Scratch) + edits(rules(Seq::<EntryView>::empty()), true, after),
    decreases before.len(),
{
    let none = rules(Seq::<EntryView>::empty());
    assert(none =~= Seq::<Rule>::empty());
    let said = words(command);
    let all = before + said + after;
    assert(first_rule(none, all) is None);
    let rest = edits(none, true, after);
    if before.len() == 0 {
        let pair = if heard_pair(said, "scratch"@, "that"@) {
            seq!["scratch"@, "that"@]
        } else {
            seq!["delete"@, "that"@]
        };
        assert(all[0] == said[0] && all[1] == said[1]);
        assert(heard(all, pair)) by {
            assert(lowered(trim(said[0], Class::Punctuation)) == lowered(pair[0]));
            assert(lowered(trim(said[1], Class::Punctuation)) == lowered(pair[1]));
        }
        assert(first_edit(none, true, all) == (Edit::Scratch, 2nat));
        assert(all.skip(2) =~= after);
        assert(seq![Edit::Scratch] + rest =~= Seq::<Edit>::empty().push(Edit::Scratch) + rest);
        Seq::empty()
    } else {
        let (edit, n) = first_edit(none, true, all);
        assert(n <= before.len()) by {
            if before.len() == 1 && n == 2 {
                reveal_strlit("scratch");
                reveal_strlit("delete");
                reveal_strlit("that");
                reveal_strlit("paragraph");
                reveal_strlit("line");
                let next = lowered(trim(all[1], Class::Punctuation));
                assert(all[1] == said[0]);
                assert(next.len() == 7 || next.len() == 6) by {
                    let a = seq!["scratch"@, "that"@];
                    let b = seq!["delete"@, "that"@];
                    assert(heard(said, a) ==> next == lowered(a[0]));
                    assert(heard(said, b) ==> next == lowered(b[0]));
                }
                assert(next.len() == 4 || next.len() == 9) by {
                    let a = seq!["scratch"@, "that"@];
                    let b = seq!["delete"@, "that"@];
                    let c = seq!["new"@, "paragraph"@];
                    let d = seq!["new"@, "line"@];
                    let e = seq!["next"@, "line"@];
                    assert(heard(all, a) ==> next == lowered(a[1]));
                    assert(heard(all, b) ==> next == lowered(b[1]));
                    assert(heard(all, c) ==> next == lowered(c[1]));
                    assert(heard(all, d) ==> next == lowered(d[1]));
                    assert(heard(all, e) ==> next == lowered(e[1]));
                }
            }
        }
        let later = before.skip(n as int);
        assert(all.skip(n as int) =~= later + said + after);
        let earlier = lemma_scratch_is_heard(later, command, after);
        let whole = seq![edit] + earlier;
        assert(seq![edit] + (earlier.push(Edit::Scratch) + rest) =~= whole.push(Edit::Scratch)
            + rest);
        whole
    }
}

/// With commands on and no dictionary, what follows "scratch that" or "delete that"
/// is formatted as if it had been said alone, whatever came before.
pub proof fn law_what_follows_a_scratch_stands_alone(
    config: FormatView,
    before: Seq<char>,
    command: Seq<char>,
    after: Seq<char>,
    gap: char,
    other_gap: char,
    continuation: bool,
)
    requires
        config.commands,
        config.dictionary.len() == 0,
        scratches(command),
        is_white(gap),
        is_white(other_gap),
    ensures
        config.formats(
            before.push(gap) + (command.push(other_gap) + after),
            continuation,
        ) == config.formats(after, continuation),
{
    let raw = before.push(gap) + (command.push(other_gap) + after);
    lemma_words_apart(before, gap, command.push(other_gap) + after);
    lemma_words_apart(command, other_gap, after);
    assert(words(raw) =~= words(before) + words(command) + words(after));
    assert(config.dictionary =~= Seq::<EntryView>::empty());
    let earlier = lemma_scratch_is_heard(words(before), command, words(after));
    law_scratch_discards_what_came_before(
        earlier,
        edits(rules(config.dictionary), true, words(after)),
    );
}

/// A transcript that ends by being scratched emits nothing.
pub proof fn law_scratched_at_the_end_emits_nothing(
    config: FormatView,
    raw: Seq<char>,
    continuation: bool,
)
    requires
        ({
            let es = edits(rules(config.dictionary), config.commands, words(raw));
            es.len() > 0 && es.last() is Scratch
        }),
    ensures
        config.formats(raw, continuation) is None,
{
    let es = edits(rules(config.dictionary), config.commands, words(raw));
    assert(kept(es) =~= Seq::<PieceView>::empty());
    assert(joined(kept(es)) =~= Seq::<char>::empty());
}

/// A transcript of nothing but white space emits nothing.
pub proof fn law_blank_transcripts_emit_nothing(
    config: FormatView,
    raw: Seq<char>,
    continuation: bool,
)
    requires
        forall|i: int| 0 <= i < raw.len() ==> is_white(#[trigger] raw[i]),
    ensures
        config.formats(raw, continuation) is None,
{
    lemma_leading(raw, Class::White);
    let n = leading(raw, Class::White);
    if n < raw.len() {
        assert(is_white(raw[n as int]));
    }
    assert(raw.skip(n as int) =~= Seq::<char>::empty());
    assert(words(raw) =~= Seq::<Seq<char>>::empty());
    let es = edits(rules(config.dictionary), config.commands, words(raw));
    assert(es =~= Seq::<Edit>::empty());
    assert(kept(es) =~= Seq::<PieceView>::empty());
    assert(joined(kept(es)) =~= Seq::<char>::empty());
}

/// No two spaces in a row.
pub open spec fn single_spaced(s: Seq<char>) -> bool {
    forall|i: int| 0 <= i < s.len() - 1 ==> !(#[trigger] s[i] == ' ' && s[i + 1] == ' ')
}

/// Single-spaced, and no space at either end.
pub open spec fn tidy(s: Seq<char>) -> bool {
    &&& single_spaced(s)
    &&& s.len() > 0 ==> s[0] != ' ' && s.last() != ' '
}

/// An entry writes something, tidily, and does not begin with a line break.
pub open spec fn tidy_entry(entry: EntryView) -> bool {
    &&& entry.written.len() > 0
    &&& tidy(entry.written)
    &&& entry.written[0] != '\n'
}

pub open spec fn tidy_dictionary(dictionary: Seq<EntryView>) -> bool {
    forall|i: int| 0 <= i < dictionary.len() ==> tidy_entry(#[trigger] dictionary[i])
}

/// No space directly before or after a line break.
pub open spec fn clear_breaks(s: Seq<char>) -> bool {
    forall|i: int|
        0 <= i < s.len() - 1 ==> !(#[trigger] s[i] == ' ' && s[i + 1] == '\n') && !(s[i] == '\n'
            && s[i + 1] == ' ')
}

/// Where an entry writes line breaks, it puts no space beside them.
pub open spec fn clear_dictionary(dictionary: Seq<EntryView>) -> bool {
    forall|i: int| 0 <= i < dictionary.len() ==> clear_breaks((#[trigger] dictionary[i]).written)
}

spec fn tidy_piece(piece: PieceView, clear: bool) -> bool {
    match piece {
        PieceView::Word(w) => w.len() > 0 && tidy(w) && w[0] != '\n' && (clear ==> clear_breaks(
            w,
        )),
        PieceView::Break(b) => b == "\n"@ || b == "\n\n"@,
    }
}

spec fn tidy_tokens(tokens: Seq<Seq<char>>) -> bool {
    forall|i: int|
        0 <= i < tokens.len() ==> (#[trigger] tokens[i]).len() > 0 && (forall|j: int|
            0 <= j < tokens[i].len() ==> !is_white(#[trigger] tokens[i][j]))
}

proof fn lemma_first_edit_is_tidy(config: FormatView, tokens: Seq<Seq<char>>, clear: bool)
    requires
        tidy_dictionary(config.dictionary),
        clear ==> clear_dictionary(config.dictionary),
        tidy_tokens(tokens),
        tokens.len() > 0,
    ensures
        ({
            let (edit, n) = first_edit(rules(config.dictionary), config.commands, tokens);
            &&& edit matches Edit::Keep(piece) ==> tidy_piece(piece, clear)
            &&& 0 < n <= tokens.len()
        }),
{
    let rs = rules(config.dictionary);
    law_longest_phrase_wins(config.dictionary, tokens);
    match first_rule(rs, tokens) {
        Some(r) => {
            let i = choose|i: int|
                0 <= i < config.dictionary.len() && r == rule_of(#[trigger] config.dictionary[i]);
            assert(tidy_entry(config.dictionary[i]));
            let n = r.spoken.len();
            let last = tokens[n - 1];
            let tail = tail_punctuation(last);
            lemma_trimmed_len(last, Class::Punctuation);
            let word = r.written + tail;
            assert forall|j: int| 0 <= j < tail.len() implies tail[j] != ' ' && tail[j] != '\n' by {
                assert(tail[j] == last[j + trimmed_len(last, Class::Punctuation)]);
                assert(!is_white(last[j + trimmed_len(last, Class::Punctuation)]));
            }
            assert(tidy(word)) by {
                assert forall|j: int| 0 <= j < word.len() - 1 implies !(#[trigger] word[j] == ' '
                    && word[j + 1] == ' ') by {
                    if j + 1 < r.written.len() {
                        assert(word[j] == r.written[j]);
                        assert(word[j + 1] == r.written[j + 1]);
                    } else {
                        assert(word[j + 1] == tail[j + 1 - r.written.len()]);
                    }
                }
                if tail.len() > 0 {
                    assert(word.last() == tail.last());
                } else {
                    assert(word.last() == r.written.last());
                }
                assert(word[0] == r.written[0]);
            }
            if clear {
                assert forall|j: int| 0 <= j < word.len() - 1 implies !(#[trigger] word[j] == ' '
                    && word[j + 1] == '\n') && !(word[j] == '\n' && word[j + 1] == ' ') by {
                    assert(clear_breaks(config.dictionary[i].written));
                    if j + 1 < r.written.len() {
                        assert(word[j] == r.written[j]);
                        assert(word[j + 1] == r.written[j + 1]);
                    } else {
                        assert(word[j + 1] == tail[j + 1 - r.written.len()]);
                    }
                }
            }
        },
        None => {
            let w = tokens[0];
            assert forall|j: int| 0 <= j < w.len() implies w[j] != ' ' && w[j] != '\n' by {
                assert(!is_white(tokens[0][j]));
            }
        },
    }
}

proof fn lemma_edits_are_tidy(config: FormatView, tokens: Seq<Seq<char>>, clear: bool)
    requires
        tidy_dictionary(config.dictionary),
        clear ==> clear_dictionary(config.dictionary),
        tidy_tokens(tokens),
    ensures
        ({
            let es = edits(rules(config.dictionary), config.commands, tokens);
            forall|i: int|
                0 <= i < es.len() ==> (#[trigger] es[i] matches Edit::Keep(piece) ==> tidy_piece(
                    piece,
                    clear,
                ))
        }),
    decreases tokens.len(),
{
    if tokens.len() > 0 {
        let rs = rules(config.dictionary);
        lemma_first_edit_is_tidy(config, tokens, clear);
        let (edit, n) = first_edit(rs, config.commands, tokens);
        let rest = tokens.skip(n as int);
        assert(tidy_tokens(rest)) by {
            assert forall|i: int| 0 <= i < rest.len() implies (#[trigger] rest[i]).len() > 0 && (forall|
                j: int,
            |
                0 <= j < rest[i].len() ==> !is_white(#[trigger] rest[i][j])) by {
                assert(rest[i] == tokens[i + n]);
            }
        }
        lemma_edits_are_tidy(config, rest, clear);
        let es = edits(rs, config.commands, tokens);
        let more = edits(rs, config.commands, rest);
        assert(es == seq![edit] + more);
        assert forall|i: int| 0 <= i < es.len() implies (#[trigger] es[i] matches Edit::Keep(piece)
            ==> tidy_piece(piece, clear)) by {
            if i > 0 {
                assert(es[i] == more[i - 1]);
            }
        }
    }
}

proof fn lemma_kept_is_tidy(es: Seq<Edit>, clear: bool)
    requires
        forall|i: int|
            0 <= i < es.len() ==> (#[trigger] es[i] matches Edit::Keep(piece) ==> tidy_piece(piece, clear)),
    ensures
        forall|i: int| 0 <= i < kept(es).len() ==> tidy_piece(#[trigger] kept(es)[i], clear),
    decreases es.len(),
{
    if es.len() > 0 {
        assert forall|i: int| 0 <= i < es.drop_last().len() implies (
        #[trigger] es.drop_last()[i] matches Edit::Keep(piece) ==> tidy_piece(piece, clear)) by {
            assert(es.drop_last()[i] == es[i]);
        }
        lemma_kept_is_tidy(es.drop_last(), clear);
        match es.last() {
            Edit::Scratch => {},
            Edit::Keep(piece) => {
                let before = kept(es.drop_last());
                assert(tidy_piece(es[es.len() - 1]->Keep_0, clear));
                assert forall|i: int| 0 <= i < kept(es).len() implies tidy_piece(
                    #[trigger] kept(es)[i],
                    clear,
                ) by {
                    if i < before.len() {
                        assert(kept(es)[i] == before[i]);
                    }
                }
            },
        }
    }
}

proof fn lemma_joined_is_tidy(pieces: Seq<PieceView>, clear: bool)
    requires
        forall|i: int| 0 <= i < pieces.len() ==> tidy_piece(#[trigger] pieces[i], clear),
    ensures
        tidy(joined(pieces)),
        clear ==> clear_breaks(joined(pieces)),
        joined(pieces).len() > 0 ==> joined(pieces)[0] != '\n',
    decreases pieces.len(),
{
    if pieces.len() > 0 {
        let front = pieces.drop_last();
        assert forall|i: int| 0 <= i < front.len() implies tidy_piece(#[trigger] front[i], clear) by {
            assert(front[i] == pieces[i]);
        }
        lemma_joined_is_tidy(front, clear);
        let out = joined(front);
        let all = joined(pieces);
        assert(tidy_piece(pieces[pieces.len() - 1], clear));
        match pieces.last() {
            PieceView::Break(literal) => {
                reveal_strlit("\n");
                reveal_strlit("\n\n");
                lemma_trimmed_len(out, Class::Space);
                assert(trim_end(out, Class::Space) =~= out);
                if out.len() > 0 {
                    assert(all == out + literal);
                    assert forall|j: int| 0 <= j < all.len() - 1 implies !(#[trigger] all[j] == ' '
                        && all[j + 1] == ' ') by {
                        if j + 1 < out.len() {
                            assert(all[j] == out[j]);
                            assert(all[j + 1] == out[j + 1]);
                        } else {
                            assert(all[j + 1] == literal[j + 1 - out.len()]);
                        }
                    }
                    if clear {
                        assert forall|j: int| 0 <= j < all.len() - 1 implies !(#[trigger] all[j]
                            == ' ' && all[j + 1] == '\n') && !(all[j] == '\n' && all[j + 1]
                            == ' ') by {
                            if j + 1 < out.len() {
                                assert(all[j] == out[j]);
                                assert(all[j + 1] == out[j + 1]);
                            } else {
                                assert(all[j + 1] == literal[j + 1 - out.len()]);
                                if j < out.len() {
                                    assert(all[j] == out.last());
                                } else {
                                    assert(all[j] == literal[j - out.len()]);
                                }
                            }
                        }
                    }
                    assert(all[0] == out[0]);
                    assert(all.last() == literal.last());
                }
            },
            PieceView::Word(word) => {
                let base = if out.len() > 0 && out.last() != '\n' {
                    out.push(' ')
                } else {
                    out
                };
                assert(all == base + word);
                assert forall|j: int| 0 <= j < all.len() - 1 implies !(#[trigger] all[j] == ' '
                    && all[j + 1] == ' ') by {
                    if j + 1 < out.len() {
                        assert(all[j] == out[j]);
                        assert(all[j + 1] == out[j + 1]);
                    } else if j + 1 == out.len() && base.len() > out.len() {
                        assert(all[j] == out.last());
                    } else if j + 1 >= base.len() {
                        assert(all[j + 1] == word[j + 1 - base.len()]);
                        if j >= base.len() {
                            assert(all[j] == word[j - base.len()]);
                        }
                    }
                }
                if clear {
                    assert forall|j: int| 0 <= j < all.len() - 1 implies !(#[trigger] all[j] == ' '
                        && all[j + 1] == '\n') && !(all[j] == '\n' && all[j + 1] == ' ') by {
                        if j + 1 < out.len() {
                            assert(all[j] == out[j]);
                            assert(all[j + 1] == out[j + 1]);
                        } else if j + 1 == out.len() && base.len() > out.len() {
                            assert(all[j] == out.last());
                        } else if j + 1 >= base.len() {
                            assert(all[j + 1] == word[j + 1 - base.len()]);
                            if j >= base.len() {
                                assert(all[j] == word[j - base.len()]);
                            }
                        }
                    }
                }
                assert(all.last() == word.last());
                if out.len() > 0 {
                    assert(all[0] == out[0]);
                } else {
                    assert(all[0] == word[0]);
                }
            },
        }
    }
}

proof fn lemma_body_is_tidy(config: FormatView, raw: Seq<char>, clear: bool)
    requires
        tidy_dictionary(config.dictionary),
        clear ==> clear_dictionary(config.dictionary),
    ensures
        ({
            let text = body(rules(config.dictionary), config.commands, raw);
            &&& tidy(text)
            &&& clear ==> clear_breaks(text)
            &&& text.len() > 0 ==> text[0] != '\n'
        }),
{
    lemma_words(raw);
    let tokens = words(raw);
    lemma_edits_are_tidy(config, tokens, clear);
    let es = edits(rules(config.dictionary), config.commands, tokens);
    lemma_kept_is_tidy(es, clear);
    lemma_joined_is_tidy(kept(es), clear);
    let all = joined(kept(es));
    lemma_trimmed_len(all, Class::Space);
    assert(trim_end(all, Class::Space) =~= all);
}

/// With tidy dictionary entries the formatted body never begins or ends with a
/// space, never holds two spaces in a row, and never begins with a line break.
pub proof fn law_the_body_is_tidy(config: FormatView, raw: Seq<char>)
    requires
        tidy_dictionary(config.dictionary),
    ensures
        ({
            let text = body(rules(config.dictionary), config.commands, raw);
            &&& tidy(text)
            &&& text.len() > 0 ==> text[0] != '\n'
        }),
{
    lemma_body_is_tidy(config, raw, false);
}

/// No space stands beside a line break in what is emitted, if the dictionary entries
/// are tidy and put none beside the line breaks they write.
pub proof fn law_no_space_stands_beside_a_line_break(
    config: FormatView,
    raw: Seq<char>,
    continuation: bool,
)
    requires
        tidy_dictionary(config.dictionary),
        clear_dictionary(config.dictionary),
        config.formats(raw, continuation) is Some,
    ensures
        clear_breaks(config.formats(raw, continuation)->0),
{
    lemma_body_is_tidy(config, raw, true);
    let text = body(rules(config.dictionary), config.commands, raw);
    let out = spaced(text, continuation, config.trailing_space);
    let shift: int = if continuation {
        1
    } else {
        0
    };
    assert forall|j: int| 0 <= j < text.len() implies out[j + shift] == text[j] by {}
    assert forall|j: int| 0 <= j < out.len() - 1 implies !(#[trigger] out[j] == ' ' && out[j + 1]
        == '\n') && !(out[j] == '\n' && out[j + 1] == ' ') by {
        let k = j - shift;
        if 0 <= k && k + 1 < text.len() {
            assert(out[k + shift] == text[k]);
            assert(out[k + 1 + shift] == text[k + 1]);
        } else if k < 0 {
            assert(out[0 + shift] == text[0]);
        } else {
            assert(k == text.len() - 1);
            assert(out[k + shift] == text[k]);
        }
    }
}

/// With tidy dictionary entries nothing emitted holds two spaces in a row, and
/// what is emitted begins with a space exactly when it continues earlier text.
pub proof fn law_emissions_are_single_spaced(
    config: FormatView,
    raw: Seq<char>,
    continuation: bool,
)
    requires
        tidy_dictionary(config.dictionary),
        config.formats(raw, continuation) is Some,
    ensures
        ({
            let out = config.formats(raw, continuation)->0;
            &&& single_spaced(out)
            &&& (out[0] == ' ') == continuation
        }),
{
    law_the_body_is_tidy(config, raw);
    let text = body(rules(config.dictionary), config.commands, raw);
    let out = spaced(text, continuation, config.trailing_space);
    let shift: int = if continuation {
        1
    } else {
        0
    };
    assert forall|j: int| 0 <= j < text.len() implies out[j + shift] == text[j] by {}
    assert forall|j: int| 0 <= j < out.len() - 1 implies !(#[trigger] out[j] == ' ' && out[j + 1]
        == ' ') by {
        let k = j - shift;
        if 0 <= k && k + 1 < text.len() {
            assert(out[k + shift] == text[k]);
            assert(out[k + 1 + shift] == text[k + 1]);
        } else if k < 0 {
            assert(out[0 + shift] == text[0]);
        } else {
            assert(k == text.len() - 1);
            assert(out[k + shift] == text[k]);
        }
    }
    if !continuation {
        assert(out[0 + shift] == text[0]);
    }
}

/// The words with one space between each two.
pub open spec fn with_spaces(tokens: Seq<Seq<char>>) -> Seq<char>
    decreases tokens.len(),
{
    if tokens.len() == 0 {
        Seq::empty()
    } else if tokens.len() == 1 {
        tokens[0]
    } else {
        with_spaces(tokens.drop_last()).push(' ') + tokens.last()
    }
}

spec fn as_words(tokens: Seq<Seq<char>>) -> Seq<PieceView> {
    tokens.map_values(|t: Seq<char>| PieceView::Word(t))
}

spec fn keeps(tokens: Seq<Seq<char>>) -> Seq<Edit> {
    tokens.map_values(|t: Seq<char>| Edit::Keep(PieceView::Word(t)))
}

proof fn lemma_verbatim_edits(tokens: Seq<Seq<char>>)
    ensures
        edits(rules(Seq::<EntryView>::empty()), false, tokens) == keeps(tokens),
    decreases tokens.len(),
{
    let none = Seq::<EntryView>::empty();
    assert(rules(none) =~= Seq::<Rule>::empty());
    if tokens.len() > 0 {
        lemma_verbatim_edits(tokens.skip(1));
        assert(first_rule(rules(none), tokens) is None);
        assert(seq![Edit::Keep(PieceView::Word(tokens[0]))] + keeps(tokens.skip(1)) =~= keeps(
            tokens,
        ));
    } else {
        assert(keeps(tokens) =~= Seq::<Edit>::empty());
    }
}

proof fn lemma_verbatim_kept(tokens: Seq<Seq<char>>)
    ensures
        kept(keeps(tokens)) == as_words(tokens),
    decreases tokens.len(),
{
    if tokens.len() > 0 {
        lemma_verbatim_kept(tokens.drop_last());
        assert(keeps(tokens).drop_last() =~= keeps(tokens.drop_last()));
        assert(as_words(tokens.drop_last()).push(PieceView::Word(tokens.last())) =~= as_words(
            tokens,
        ));
    } else {
        assert(as_words(tokens) =~= Seq::<PieceView>::empty());
        assert(keeps(tokens) =~= Seq::<Edit>::empty());
    }
}

proof fn lemma_verbatim_joined(tokens: Seq<Seq<char>>)
    requires
        tidy_tokens(tokens),
    ensures
        joined(as_words(tokens)) == with_spaces(tokens),
        tokens.len() > 0 ==> with_spaces(tokens).len() > 0 && !is_white(with_spaces(tokens).last()),
    decreases tokens.len(),
{
    if tokens.len() > 0 {
        let front = tokens.drop_last();
        assert(tidy_tokens(front)) by {
            assert forall|i: int| 0 <= i < front.len() implies (#[trigger] front[i]).len() > 0 && (
            forall|j: int| 0 <= j < front[i].len() ==> !is_white(#[trigger] front[i][j])) by {
                assert(front[i] == tokens[i]);
            }
        }
        lemma_verbatim_joined(front);
        assert(as_words(tokens).drop_last() =~= as_words(front));
        assert(as_words(tokens).last() == PieceView::Word(tokens.last()));
        let w = tokens[tokens.len() - 1];
        assert(w.len() > 0 && !is_white(w[w.len() - 1]));
        if front.len() == 0 {
            assert(Seq::<char>::empty() + w =~= w);
            assert(joined(as_words(front)) =~= Seq::<char>::empty());
        }
    } else {
        assert(as_words(tokens) =~= Seq::<PieceView>::empty());
    }
}

/// With commands off and no dictionary the words pass through verbatim, with one
/// space between each two.
pub proof fn law_without_commands_words_pass_through(raw: Seq<char>)
    ensures
        body(rules(Seq::<EntryView>::empty()), false, raw) == with_spaces(words(raw)),
{
    let tokens = words(raw);
    lemma_words(raw);
    assert(tidy_tokens(tokens)) by {
        assert forall|i: int| 0 <= i < tokens.len() implies (#[trigger] tokens[i]).len() > 0 && (
        forall|j: int| 0 <= j < tokens[i].len() ==> !is_white(#[trigger] tokens[i][j])) by {
            assert(words(raw)[i].len() > 0);
        }
    }
    lemma_verbatim_edits(tokens);
    lemma_verbatim_kept(tokens);
    lemma_verbatim_joined(tokens);
    let all = with_spaces(tokens);
    lemma_trimmed_len(all, Class::Space);
    assert(trim_end(all, Class::Space) =~= all);
}

} // verus!

//! Character classes, and splitting, trimming and comparing text.
//!
//! Text is modelled as the sequence of its characters. Everything here is about
//! those characters; nothing depends on how they are encoded.

use vstd::prelude::*;

verus! {

/// `String::push`: appends one character to the end of the string and leaves
/// what was there before it unchanged.
pub assume_specification[ String::push ](text: &mut String, c: char)
    ensures
        final(text)@ == old(text)@.push(c),
;

/// The characters with the Unicode property `White_Space`.
pub open spec fn is_white(c: char) -> bool {
    let n = c as u32;
    ||| 0x09 <= n <= 0x0d
    ||| n == 0x20
    ||| n == 0x85
    ||| n == 0xa0
    ||| n == 0x1680
    ||| 0x2000 <= n <= 0x200a
    ||| n == 0x2028
    ||| n == 0x2029
    ||| n == 0x202f
    ||| n == 0x205f
    ||| n == 0x3000
}

/// The printable ASCII characters that are neither letters, digits nor space.
pub open spec fn is_punctuation(c: char) -> bool {
    ||| '!' <= c <= '/'
    ||| ':' <= c <= '@'
    ||| '[' <= c <= '`'
    ||| '{' <= c <= '~'
}

/// A set of characters that text can be trimmed of.
#[derive(Clone, Copy, Debug, PartialEq, Eq)]
pub enum Class {
    White,
    Punctuation,
    Space,
}

impl Class {
    pub open spec fn has(self, c: char) -> bool {
        match self {
            Class::White => is_white(c),
            Class::Punctuation => is_punctuation(c),
            Class::Space => c == ' ',
        }
    }

    pub fn contains(self, c: char) -> (r: bool)
        ensures
            r == self.has(c),
    {
        let n: u32 = c as u32;
        match self {
            Class::White => (0x09 <= n && n <= 0x0d) || n == 0x20 || n == 0x85 || n == 0xa0 || n
                == 0x1680 || (0x2000 <= n && n <= 0x200a) || n == 0x2028 || n == 0x2029 || n
                == 0x202f || n == 0x205f || n == 0x3000,
            Class::Punctuation => ('!' <= c && c <= '/') || (':' <= c && c <= '@') || ('[' <= c && c
                <= '`') || ('{' <= c && c <= '~'),
            Class::Space => c == ' ',
        }
    }
}

/// `c` with an ASCII capital made small; any other character is unchanged.
pub open spec fn lower(c: char) -> char {
    if 'A' <= c <= 'Z' {
        ((c as u32 + 32) as u32) as char
    } else {
        c
    }
}

/// `c` with a small ASCII letter made capital; any other character is unchanged.
pub open spec fn upper(c: char) -> char {
    if 'a' <= c <= 'z' {
        ((c as u32 - 32) as u32) as char
    } else {
        c
    }
}

pub open spec fn lowered(s: Seq<char>) -> Seq<char> {
    s.map_values(|c: char| lower(c))
}

pub open spec fn uppered(s: Seq<char>) -> Seq<char> {
    s.map_values(|c: char| upper(c))
}

pub fn to_lower(c: char) -> (r: char)
    ensures
        r == lower(c),
{
    if 'A' <= c && c <= 'Z' {
        ((c as u8) + 32) as char
    } else {
        c
    }
}

pub fn to_upper(c: char) -> (r: char)
    ensures
        r == upper(c),
{
    if 'a' <= c && c <= 'z' {
        ((c as u8) - 32) as char
    } else {
        c
    }
}

/// How many characters at the front of `s` are in `class`.
pub open spec fn leading(s: Seq<char>, class: Class) -> nat
    decreases s.len(),
{
    if s.len() > 0 && class.has(s[0]) {
        1 + leading(s.skip(1), class)
    } else {
        0
    }
}

/// The length of `s` without the characters in `class` at its end.
pub open spec fn trimmed_len(s: Seq<char>, class: Class) -> nat
    decreases s.len(),
{
    if s.len() > 0 && class.has(s.last()) {
        trimmed_len(s.drop_last(), class)
    } else {
        s.len()
    }
}

/// `s` without the characters in `class` at its end.
pub open spec fn trim_end(s: Seq<char>, class: Class) -> Seq<char> {
    s.take(trimmed_len(s, class) as int)
}

/// `s` without the characters in `class` at either end.
pub open spec fn trim(s: Seq<char>, class: Class) -> Seq<char> {
    trim_end(s.skip(leading(s, class) as int), class)
}

pub proof fn lemma_trimmed_len(s: Seq<char>, class: Class)
    ensures
        trimmed_len(s, class) <= s.len(),
        forall|i: int| trimmed_len(s, class) <= i < s.len() ==> class.has(#[trigger] s[i]),
        trimmed_len(s, class) > 0 ==> !class.has(s[trimmed_len(s, class) - 1]),
    decreases s.len(),
{
    if s.len() > 0 && class.has(s.last()) {
        lemma_trimmed_len(s.drop_last(), class);
        assert forall|i: int| trimmed_len(s, class) <= i < s.len() implies class.has(
            #[trigger] s[i],
        ) by {
            if i < s.len() - 1 {
                assert(s.drop_last()[i] == s[i]);
            }
        }
    }
}

pub proof fn lemma_leading(s: Seq<char>, class: Class)
    ensures
        leading(s, class) <= s.len(),
        forall|i: int| 0 <= i < leading(s, class) ==> class.has(#[trigger] s[i]),
        leading(s, class) < s.len() ==> !class.has(s[leading(s, class) as int]),
    decreases s.len(),
{
    if s.len() > 0 && class.has(s[0]) {
        lemma_leading(s.skip(1), class);
        assert forall|i: int| 0 <= i < leading(s, class) implies class.has(#[trigger] s[i]) by {
            if i > 0 {
                assert(s.skip(1)[i - 1] == s[i]);
            }
        }
    }
}

/// How many characters from `from` on are in `class` before the first that is not.
fn count_leading(s: &[char], from: usize, class: Class) -> (r: usize)
    requires
        from <= s@.len(),
    ensures
        r == leading(s@.skip(from as int), class),
        from + r <= s@.len(),
        from + r <= usize::MAX,
{
    let mut i: usize = from;
    while i < s.len() && class.contains(s[i])
        invariant
            from <= i <= s@.len(),
            leading(s@.skip(from as int), class) == (i - from) + leading(s@.skip(i as int), class),
        decreases s@.len() - i,
    {
        assert(s@.skip(i as int).skip(1) =~= s@.skip(i + 1));
        assert(s@.skip(i as int)[0] == s@[i as int]);
        i += 1;
    }
    i - from
}

/// The length of `s` without the characters in `class` at its end.
pub fn len_trimmed(s: &[char], class: Class) -> (r: usize)
    ensures
        r == trimmed_len(s@, class),
        r <= s@.len(),
{
    let mut n: usize = s.len();
    assert(s@.take(n as int) =~= s@);
    while n > 0 && class.contains(s[n - 1])
        invariant
            n <= s@.len(),
            trimmed_len(s@, class) == trimmed_len(s@.take(n as int), class),
        decreases n,
    {
        assert(s@.take(n as int).drop_last() =~= s@.take(n - 1));
        assert(s@.take(n as int).last() == s@[n - 1]);
        n -= 1;
    }
    n
}

/// The characters of `text`, one element each.
pub fn chars_of(text: &str) -> (r: Vec<char>)
    ensures
        r@ == text@,
{
    let mut out: Vec<char> = Vec::new();
    for c in it: text.chars()
        invariant
            out@ == it.seq().take(it.index() as int),
            it.seq() == text@,
    {
        out.push(c);
    }
    assert(text@.take(text@.len() as int) == text@);
    out
}

/// The text made of `chars`.
pub fn string_of(chars: &[char]) -> (r: String)
    ensures
        r@ == chars@,
{
    let mut out = String::new();
    for i in 0..chars.len()
        invariant
            out@ == chars@.take(i as int),
    {
        out.push(chars[i]);
        assert(chars@.take(i + 1) == chars@.take(i as int).push(chars@[i as int]));
    }
    assert(chars@.take(chars@.len() as int) == chars@);
    out
}

/// The part of `s` from `from` up to `to`.
pub fn part(s: &[char], from: usize, to: usize) -> (r: Vec<char>)
    requires
        from <= to <= s@.len(),
    ensures
        r@ == s@.subrange(from as int, to as int),
{
    let mut out: Vec<char> = Vec::new();
    for i in from..to
        invariant
            from <= i <= to <= s@.len(),
            out@ == s@.subrange(from as int, i as int),
    {
        out.push(s[i]);
        assert(s@.subrange(from as int, i + 1) == s@.subrange(from as int, i as int).push(
            s@[i as int],
        ));
    }
    out
}

/// `s` without the characters in `class` at either end.
pub fn trimmed(s: &[char], class: Class) -> (r: Vec<char>)
    ensures
        r@ == trim(s@, class),
{
    assert(s@.skip(0) =~= s@);
    let start: usize = count_leading(s, 0, class);
    let rest = part(s, start, s.len());
    assert(rest@ =~= s@.skip(start as int));
    let n: usize = len_trimmed(rest.as_slice(), class);
    let out = part(rest.as_slice(), 0, n);
    assert(out@ =~= rest@.take(n as int));
    out
}

/// Are the two texts the same once ASCII capitals are made small?
pub fn same_ignoring_case(a: &[char], b: &[char]) -> (r: bool)
    ensures
        r == (lowered(a@) == lowered(b@)),
{
    if a.len() != b.len() {
        assert(lowered(a@).len() != lowered(b@).len());
        return false;
    }
    for i in 0..a.len()
        invariant
            a@.len() == b@.len(),
            forall|j: int| 0 <= j < i ==> lower(#[trigger] a@[j]) == lower(b@[j]),
    {
        if to_lower(a[i]) != to_lower(b[i]) {
            assert(lowered(a@)[i as int] != lowered(b@)[i as int]);
            return false;
        }
    }
    assert(lowered(a@) =~= lowered(b@));
    true
}

/// Is it the same text?
pub fn same(a: &[char], b: &[char]) -> (r: bool)
    ensures
        r == (a@ == b@),
{
    if a.len() != b.len() {
        return false;
    }
    for i in 0..a.len()
        invariant
            a@.len() == b@.len(),
            forall|j: int| 0 <= j < i ==> a@[j] == b@[j],
    {
        if a[i] != b[i] {
            return false;
        }
    }
    assert(a@ =~= b@);
    true
}

/// Does `s` begin with `prefix`?
pub fn begins_with(s: &[char], prefix: &[char]) -> (r: bool)
    ensures
        r == prefix@.is_prefix_of(s@),
{
    if prefix.len() > s.len() {
        return false;
    }
    for i in 0..prefix.len()
        invariant
            prefix@.len() <= s@.len(),
            forall|j: int| 0 <= j < i ==> prefix@[j] == s@[j],
    {
        if prefix[i] != s[i] {
            assert(s@.subrange(0, prefix@.len() as int)[i as int] != prefix@[i as int]);
            return false;
        }
    }
    assert(prefix@ =~= s@.subrange(0, prefix@.len() as int));
    true
}

/// `needle` stands in `s` at position `at`.
pub open spec fn stands_at(s: Seq<char>, needle: Seq<char>, at: int) -> bool {
    &&& 0 <= at <= s.len()
    &&& needle.is_prefix_of(s.skip(at))
}

/// `needle` stands somewhere in `s`.
pub open spec fn has_text(s: Seq<char>, needle: Seq<char>) -> bool {
    exists|at: int| stands_at(s, needle, at)
}

pub fn contains_text(s: &[char], needle: &[char]) -> (r: bool)
    ensures
        r == has_text(s@, needle@),
{
    let mut at: usize = 0;
    while at < s.len()
        invariant
            at <= s@.len(),
            forall|k: int| 0 <= k < at ==> !stands_at(s@, needle@, k),
        decreases s@.len() - at,
    {
        let rest = part(s, at, s.len());
        assert(rest@ =~= s@.skip(at as int));
        if begins_with(rest.as_slice(), needle) {
            assert(stands_at(s@, needle@, at as int));
            return true;
        }
        at += 1;
    }
    assert(s@.skip(s@.len() as int) =~= Seq::<char>::empty());
    if needle.len() == 0 {
        assert(needle@ =~= s@.skip(s@.len() as int).subrange(0, 0));
        assert(stands_at(s@, needle@, s@.len() as int));
        return true;
    }
    false
}

/// The maximal runs of `s` without white space, in order.
pub open spec fn words(s: Seq<char>) -> Seq<Seq<char>>
    decreases s.len(),
{
    let t = s.skip(leading(s, Class::White) as int);
    let n = word_len(t);
    if n == 0 || n > t.len() {
        Seq::empty()
    } else {
        proof {
            lemma_leading(s, Class::White);
        }
        seq![t.take(n as int)] + words(t.skip(n as int))
    }
}

/// How many characters at the front of `s` are not white space.
pub open spec fn word_len(s: Seq<char>) -> nat
    decreases s.len(),
{
    if s.len() > 0 && !is_white(s[0]) {
        1 + word_len(s.skip(1))
    } else {
        0
    }
}

pub proof fn lemma_word_len(s: Seq<char>)
    ensures
        word_len(s) <= s.len(),
        forall|i: int| 0 <= i < word_len(s) ==> !is_white(#[trigger] s[i]),
        word_len(s) < s.len() ==> is_white(s[word_len(s) as int]),
    decreases s.len(),
{
    if s.len() > 0 && !is_white(s[0]) {
        lemma_word_len(s.skip(1));
        assert forall|i: int| 0 <= i < word_len(s) implies !is_white(#[trigger] s[i]) by {
            if i > 0 {
                assert(s.skip(1)[i - 1] == s[i]);
            }
        }
    }
}

/// No word is empty, and no word holds white space.
pub proof fn lemma_words(s: Seq<char>)
    ensures
        forall|i: int| 0 <= i < words(s).len() ==> (#[trigger] words(s)[i]).len() > 0,
        forall|i: int, j: int|
            0 <= i < words(s).len() && 0 <= j < words(s)[i].len() ==> !is_white(
                #[trigger] words(s)[i][j],
            ),
    decreases s.len(),
{
    let t = s.skip(leading(s, Class::White) as int);
    let n = word_len(t);
    lemma_leading(s, Class::White);
    lemma_word_len(t);
    if n != 0 {
        lemma_words(t.skip(n as int));
        let rest = words(t.skip(n as int));
        assert(words(s) == seq![t.take(n as int)] + rest);
        assert forall|i: int| 0 <= i < words(s).len() implies (#[trigger] words(s)[i]).len() > 0 by {
            if i > 0 {
                assert(words(s)[i] == rest[i - 1]);
            }
        }
        assert forall|i: int, j: int|
            0 <= i < words(s).len() && 0 <= j < words(s)[i].len() implies !is_white(
            #[trigger] words(s)[i][j],
        ) by {
            if i > 0 {
                assert(words(s)[i] == rest[i - 1]);
            } else {
                assert(words(s)[0][j] == t[j]);
            }
        }
    }
}

/// White space at the front of a text holds no word.
proof fn lemma_words_after_white(s: Seq<char>)
    requires
        s.len() > 0,
        is_white(s[0]),
    ensures
        words(s) == words(s.skip(1)),
{
    let n = leading(s.skip(1), Class::White);
    lemma_leading(s.skip(1), Class::White);
    lemma_leading(s, Class::White);
    assert(leading(s, Class::White) == n + 1);
    assert(s.skip((n + 1) as int) =~= s.skip(1).skip(n as int));
}

/// The words of two texts with white space between them are those of the first and
/// then those of the second.
pub proof fn lemma_words_apart(first: Seq<char>, gap: char, second: Seq<char>)
    requires
        is_white(gap),
    ensures
        words(first.push(gap) + second) == words(first) + words(second),
    decreases first.len(),
{
    let all = first.push(gap) + second;
    if first.len() == 0 {
        lemma_words_after_white(all);
        assert(all.skip(1) =~= second);
        assert(first =~= Seq::<char>::empty());
        lemma_leading(first, Class::White);
        assert(words(first) =~= Seq::<Seq<char>>::empty());
        assert(words(first) + words(second) =~= words(second));
    } else if is_white(first[0]) {
        lemma_words_after_white(all);
        lemma_words_after_white(first);
        assert(all.skip(1) =~= first.skip(1).push(gap) + second);
        lemma_words_apart(first.skip(1), gap, second);
    } else {
        lemma_leading(first, Class::White);
        lemma_leading(all, Class::White);
        assert(leading(first, Class::White) == 0);
        assert(leading(all, Class::White) == 0);
        assert(first.skip(0) =~= first);
        assert(all.skip(0) =~= all);
        let n = word_len(first);
        lemma_word_len(first);
        lemma_word_len(all);
        let m = word_len(all);
        assert(m == n) by {
            if m < n {
                assert(all[m as int] == first[m as int]);
            } else if n < m {
                assert(is_white(all[n as int]));
            }
        }
        assert(all.take(n as int) =~= first.take(n as int));
        assert(all.skip(n as int) =~= first.skip(n as int).push(gap) + second);
        lemma_words_apart(first.skip(n as int), gap, second);
        let word = seq![first.take(n as int)];
        assert(word + (words(first.skip(n as int)) + words(second)) =~= word + words(
            first.skip(n as int),
        ) + words(second));
    }
}

/// What each element of `parts` reads.
pub open spec fn texts(parts: Seq<Vec<char>>) -> Seq<Seq<char>> {
    parts.map_values(|p: Vec<char>| p@)
}

/// The words of `s`.
pub fn split_words(s: &[char]) -> (r: Vec<Vec<char>>)
    ensures
        texts(r@) == words(s@),
{
    let mut out: Vec<Vec<char>> = Vec::new();
    let mut i: usize = 0;
    assert(s@.skip(0) =~= s@);
    assert(texts(out@) + words(s@) =~= words(s@));
    loop
        invariant
            i <= s@.len(),
            words(s@) == texts(out@) + words(s@.skip(i as int)),
        ensures
            words(s@) == texts(out@),
        decreases s@.len() - i,
    {
        let ghost rest = s@.skip(i as int);
        let gap: usize = count_leading(s, i, Class::White);
        let start: usize = i + gap;
        let ghost t = s@.skip(start as int);
        assert(rest.skip(leading(rest, Class::White) as int) =~= t);
        let mut end: usize = start;
        while end < s.len() && !Class::White.contains(s[end])
            invariant
                start <= end <= s@.len(),
                t == s@.skip(start as int),
                word_len(t) == (end - start) + word_len(s@.skip(end as int)),
            decreases s@.len() - end,
        {
            assert(s@.skip(end as int).skip(1) =~= s@.skip(end + 1));
            assert(s@.skip(end as int)[0] == s@[end as int]);
            end += 1;
        }
        proof {
            if end < s@.len() {
                assert(s@.skip(end as int)[0] == s@[end as int]);
            }
            assert(word_len(t) == end - start);
        }
        if end == start {
            assert(words(rest) =~= Seq::<Seq<char>>::empty());
            assert(texts(out@) + words(rest) =~= texts(out@));
            break;
        }
        let ghost before = out@;
        let word = part(s, start, end);
        assert(word@ =~= t.take(end - start));
        assert(t.skip(end - start) =~= s@.skip(end as int));
        out.push(word);
        proof {
            assert(words(rest) == seq![word@] + words(s@.skip(end as int)));
            assert(texts(out@) =~= texts(before).push(word@));
            assert(texts(before) + (seq![word@] + words(s@.skip(end as int))) =~= texts(before).push(
                word@,
            ) + words(s@.skip(end as int)));
        }
        i = end;
    }
    out
}

/// The character for a decimal digit.
pub open spec fn digit(n: nat) -> char {
    (('0' as u32 + n) as u32) as char
}

/// `n` in decimal, without leading zeros.
pub open spec fn decimal(n: nat) -> Seq<char>
    decreases n,
{
    if n < 10 {
        seq![digit(n)]
    } else {
        decimal(n / 10).push(digit(n % 10))
    }
}

/// Appends `n` in decimal.
pub fn push_decimal(out: &mut String, n: u128)
    ensures
        final(out)@ == old(out)@ + decimal(n as nat),
    decreases n,
{
    if n >= 10 {
        push_decimal(out, n / 10);
    }
    let ghost before = out@;
    out.push((('0' as u8) + ((n % 10) as u8)) as char);
    proof {
        if n >= 10 {
            assert(old(out)@ + decimal((n / 10) as nat).push(digit((n % 10) as nat)) =~= before.push(
                digit((n % 10) as nat),
            ));
        } else {
            assert(old(out)@ + seq![digit(n as nat)] =~= before.push(digit(n as nat)));
        }
    }
}

/// `n` times the character.
pub open spec fn repeated(c: char, n: nat) -> Seq<char> {
    Seq::new(n, |i: int| c)
}

/// Appends the character `n` times.
pub fn push_repeated(out: &mut String, c: char, n: usize)
    ensures
        final(out)@ == old(out)@ + repeated(c, n as nat),
{
    let ghost before = out@;
    assert(before + repeated(c, 0) =~= before);
    for i in 0..n
        invariant
            out@ == before + repeated(c, i as nat),
    {
        out.push(c);
        assert(before + repeated(c, (i + 1) as nat) =~= (before + repeated(c, i as nat)).push(c));
    }
}

/// `text` with spaces after it up to `width` characters.
pub open spec fn padded(text: Seq<char>, width: nat) -> Seq<char> {
    text + repeated(
        ' ',
        if width > text.len() {
            (width - text.len()) as nat
        } else {
            0
        },
    )
}

/// Appends `text` with spaces after it up to `width` characters.
pub fn push_padded(out: &mut String, text: &str, width: usize)
    ensures
        final(out)@ == old(out)@ + padded(text@, width as nat),
{
    let n: usize = text.unicode_len();
    push_text(out, text);
    if width > n {
        push_repeated(out, ' ', width - n);
    }
    assert(out@ =~= old(out)@ + padded(text@, width as nat));
}

/// Appends `text`.
pub fn push_text(out: &mut String, text: &str)
    ensures
        final(out)@ == old(out)@ + text@,
{
    out.append(text);
}

/// Text that is padded keeps its characters, followed by spaces up to the width.
pub proof fn law_padding_is_spaces_after(text: Seq<char>, width: nat)
    ensures
        padded(text, width).len() == (if width > text.len() {
            width
        } else {
            text.len()
        }),
        forall|i: int| 0 <= i < text.len() ==> #[trigger] padded(text, width)[i] == text[i],
        forall|i: int|
            text.len() <= i < padded(text, width).len() ==> #[trigger] padded(text, width)[i] == ' ',
{
}

/// Trimming takes characters of the class off both ends, as many as there are, and
/// nothing else.
pub proof fn law_trimming_takes_off_the_ends(s: Seq<char>, class: Class) -> (r: (int, int))
    ensures
        0 <= r.0 <= r.1 <= s.len(),
        trim(s, class) == s.subrange(r.0, r.1),
        forall|i: int| 0 <= i < r.0 ==> class.has(#[trigger] s[i]),
        forall|i: int| r.1 <= i < s.len() ==> class.has(#[trigger] s[i]),
        trim(s, class).len() > 0 ==> !class.has(s[r.0]) && !class.has(s[r.1 - 1]),
{
    let from = leading(s, class) as int;
    lemma_leading(s, class);
    let rest = s.skip(from);
    lemma_trimmed_len(rest, class);
    let to = from + trimmed_len(rest, class) as int;
    assert(trim(s, class) =~= s.subrange(from, to));
    assert forall|i: int| to <= i < s.len() implies class.has(#[trigger] s[i]) by {
        assert(rest[i - from] == s[i]);
    }
    if trim(s, class).len() > 0 {
        assert(rest[trimmed_len(rest, class) - 1] == s[to - 1]);
    }
    (from, to)
}

/// Making letters small or capital changes ASCII letters and nothing else, each to the
/// same letter.
pub proof fn law_letters_change_case(c: char)
    ensures
        65 <= c as int <= 90 ==> lower(c) as int == c as int + 32 && upper(c) == c,
        97 <= c as int <= 122 ==> upper(c) as int == c as int - 32 && lower(c) == c,
        !(65 <= c as int <= 90) && !(97 <= c as int <= 122) ==> lower(c) == c && upper(c) == c,
{
}

} // verus!

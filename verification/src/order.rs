//! Putting numbers and names in order.

use crate::chars::chars_of;
use vstd::prelude::*;
use vstd::relations::sorted_by;
use vstd::seq_lib::lemma_sorted_unique;

verus! {

/// `x` in its place in a sequence that is in order: after everything up to it.
pub open spec fn with_number(s: Seq<u128>, x: u128) -> Seq<u128>
    decreases s.len(),
{
    if s.len() == 0 || s.last() <= x {
        s.push(x)
    } else {
        with_number(s.drop_last(), x).push(s.last())
    }
}

/// The numbers in ascending order.
pub open spec fn ascending(s: Seq<u128>) -> Seq<u128>
    decreases s.len(),
{
    if s.len() == 0 {
        s
    } else {
        with_number(ascending(s.drop_last()), s.last())
    }
}

pub open spec fn is_ascending(s: Seq<u128>) -> bool {
    forall|i: int, j: int| 0 <= i < j < s.len() ==> s[i] <= s[j]
}

proof fn lemma_with_number(s: Seq<u128>, x: u128)
    requires
        is_ascending(s),
    ensures
        is_ascending(with_number(s, x)),
        with_number(s, x).len() == s.len() + 1,
        with_number(s, x).to_multiset() == s.to_multiset().insert(x),
        with_number(s, x).last() == x || (s.len() > 0 && with_number(s, x).last() == s.last()),
        with_number(s, x).last() >= x,
    decreases s.len(),
{
    broadcast use vstd::seq_lib::group_to_multiset_ensures;
    broadcast use vstd::multiset::group_multiset_axioms;

    if s.len() > 0 && s.last() > x {
        let front = s.drop_last();
        lemma_with_number(front, x);
        assert(front.push(s.last()) =~= s);
        assert(with_number(s, x).to_multiset() =~= s.to_multiset().insert(x));
        let placed = with_number(front, x);
        assert forall|i: int, j: int| 0 <= i < j < placed.push(s.last()).len() implies placed.push(
            s.last(),
        )[i] <= placed.push(s.last())[j] by {
            if j == placed.len() {
                assert(placed[i] <= placed.last());
                if front.len() > 0 {
                    assert(front.last() <= s.last());
                }
            }
        }
    } else {
        assert forall|i: int, j: int| 0 <= i < j < s.push(x).len() implies s.push(x)[i] <= s.push(
            x,
        )[j] by {
            if j == s.len() {
                assert(s[i] <= s.last());
            }
        }
    }
}

/// Putting numbers in order keeps every one of them, and the result ascends.
pub proof fn law_ascending_sorts(s: Seq<u128>)
    ensures
        is_ascending(ascending(s)),
        ascending(s).len() == s.len(),
        ascending(s).to_multiset() == s.to_multiset(),
    decreases s.len(),
{
    broadcast use vstd::seq_lib::group_to_multiset_ensures;

    if s.len() > 0 {
        law_ascending_sorts(s.drop_last());
        lemma_with_number(ascending(s.drop_last()), s.last());
        assert(s.drop_last().push(s.last()) =~= s);
    }
}

/// The order the numbers come in makes no difference once they are sorted.
pub proof fn law_ascending_ignores_arrival(a: Seq<u128>, b: Seq<u128>)
    requires
        a.to_multiset() == b.to_multiset(),
    ensures
        ascending(a) == ascending(b),
{
    let leq = |x: u128, y: u128| x <= y;
    law_ascending_sorts(a);
    law_ascending_sorts(b);
    assert(sorted_by(ascending(a), leq));
    assert(sorted_by(ascending(b), leq));
    lemma_sorted_unique(ascending(a), ascending(b), leq);
}

/// How many of the numbers are at most the limit.
pub open spec fn count_up_to(s: Seq<u128>, limit: int) -> nat
    decreases s.len(),
{
    if s.len() == 0 {
        0
    } else {
        count_up_to(s.drop_last(), limit) + if s.last() <= limit {
            1nat
        } else {
            0
        }
    }
}

proof fn lemma_count_with_number(s: Seq<u128>, x: u128, limit: int)
    ensures
        count_up_to(with_number(s, x), limit) == count_up_to(s, limit) + if x <= limit {
            1nat
        } else {
            0
        },
    decreases s.len(),
{
    if s.len() == 0 || s.last() <= x {
        assert(s.push(x).drop_last() =~= s);
    } else {
        let placed = with_number(s.drop_last(), x);
        lemma_count_with_number(s.drop_last(), x, limit);
        assert(placed.push(s.last()).drop_last() =~= placed);
    }
}

proof fn lemma_count_ascending(s: Seq<u128>, limit: int)
    ensures
        count_up_to(ascending(s), limit) == count_up_to(s, limit),
    decreases s.len(),
{
    if s.len() > 0 {
        lemma_count_ascending(s.drop_last(), limit);
        lemma_count_with_number(ascending(s.drop_last()), s.last(), limit);
    }
}

/// If the first `n` numbers are at most the limit, there are at least `n` of them.
proof fn lemma_count_head(s: Seq<u128>, limit: int, n: nat)
    requires
        n <= s.len(),
        forall|i: int| 0 <= i < n ==> s[i] <= limit,
    ensures
        count_up_to(s, limit) >= n,
    decreases s.len(),
{
    if s.len() > 0 {
        let front = s.drop_last();
        if n == s.len() {
            lemma_count_head(front, limit, (n - 1) as nat);
        } else {
            lemma_count_head(front, limit, n);
        }
    }
}

proof fn lemma_count_bound(s: Seq<u128>, limit: int)
    ensures
        count_up_to(s, limit) <= s.len(),
    decreases s.len(),
{
    if s.len() > 0 {
        lemma_count_bound(s.drop_last(), limit);
    }
}

/// If from `n` on every number is over the limit, at most `n` of them are up to it.
proof fn lemma_count_tail(s: Seq<u128>, limit: int, n: nat)
    requires
        n <= s.len(),
        forall|i: int| n <= i < s.len() ==> s[i] > limit,
    ensures
        count_up_to(s, limit) <= n,
    decreases s.len(),
{
    if n < s.len() {
        lemma_count_tail(s.drop_last(), limit, n);
    } else {
        lemma_count_bound(s, limit);
    }
}

/// In ascending order the number at `n` has more than `n` of the numbers up to it,
/// and no more than `n` of them below it.
pub proof fn law_ascending_ranks(s: Seq<u128>, n: nat)
    requires
        n < s.len(),
    ensures
        count_up_to(s, ascending(s)[n as int] as int) > n,
        count_up_to(s, ascending(s)[n as int] - 1) <= n,
{
    let sorted = ascending(s);
    let v = sorted[n as int];
    law_ascending_sorts(s);
    lemma_count_ascending(s, v as int);
    lemma_count_ascending(s, v - 1);
    lemma_count_head(sorted, v as int, n + 1);
    lemma_count_tail(sorted, v - 1, n);
}

proof fn lemma_number_place(s: Seq<u128>, x: u128, p: int)
    requires
        0 <= p <= s.len(),
        p > 0 ==> s[p - 1] <= x,
        forall|i: int| p <= i < s.len() ==> s[i] > x,
    ensures
        with_number(s, x) == s.insert(p, x),
    decreases s.len(),
{
    if p < s.len() {
        lemma_number_place(s.drop_last(), x, p);
        assert(s.drop_last().insert(p, x).push(s.last()) =~= s.insert(p, x));
    } else {
        assert(s.insert(p, x) =~= s.push(x));
    }
}

/// Sorts the numbers.
pub fn sort_numbers(numbers: &[u128]) -> (r: Vec<u128>)
    ensures
        r@ == ascending(numbers@),
        r@.len() == numbers@.len(),
{
    let mut out: Vec<u128> = Vec::new();
    for i in 0..numbers.len()
        invariant
            out@ == ascending(numbers@.take(i as int)),
            out@.len() == i,
    {
        let x: u128 = numbers[i];
        let mut p: usize = out.len();
        while p > 0 && out[p - 1] > x
            invariant
                p <= out@.len(),
                forall|k: int| p <= k < out@.len() ==> out@[k] > x,
            decreases p,
        {
            p -= 1;
        }
        proof {
            lemma_number_place(out@, x, p as int);
            assert(numbers@.take(i + 1).drop_last() =~= numbers@.take(i as int));
        }
        out.insert(p, x);
    }
    assert(numbers@.take(numbers@.len() as int) =~= numbers@);
    out
}

/// Does `a` come before `b`, going by the first character in which they differ?
pub open spec fn reads_before(a: Seq<char>, b: Seq<char>) -> bool
    decreases a.len(),
{
    if b.len() == 0 {
        false
    } else if a.len() == 0 {
        true
    } else if a[0] != b[0] {
        a[0] < b[0]
    } else {
        reads_before(a.skip(1), b.skip(1))
    }
}

/// Does `a` come before `b`, going by the first character in which they differ?
pub fn is_before(a: &str, b: &str) -> (r: bool)
    ensures
        r == reads_before(a@, b@),
{
    let left = chars_of(a);
    let right = chars_of(b);
    let mut i: usize = 0;
    assert(a@.skip(0) =~= a@);
    assert(b@.skip(0) =~= b@);
    while i < left.len() && i < right.len()
        invariant
            left@ == a@,
            right@ == b@,
            i <= left@.len(),
            i <= right@.len(),
            reads_before(a@, b@) == reads_before(a@.skip(i as int), b@.skip(i as int)),
        decreases left@.len() - i,
    {
        if left[i] != right[i] {
            return left[i] < right[i];
        }
        assert(a@.skip(i as int).skip(1) =~= a@.skip(i + 1));
        assert(b@.skip(i as int).skip(1) =~= b@.skip(i + 1));
        i += 1;
    }
    i < right.len()
}

proof fn lemma_before_is_an_order(a: Seq<char>, b: Seq<char>, c: Seq<char>)
    ensures
        !(reads_before(a, b) && reads_before(b, a)),
        !reads_before(a, b) && !reads_before(b, a) ==> a == b,
        reads_before(a, b) && reads_before(b, c) ==> reads_before(a, c),
    decreases a.len(),
{
    if a.len() > 0 && b.len() > 0 && a[0] == b[0] {
        let rest = if c.len() > 0 {
            c.skip(1)
        } else {
            c
        };
        lemma_before_is_an_order(a.skip(1), b.skip(1), rest);
        if a.skip(1) == b.skip(1) {
            assert(a =~= seq![a[0]] + a.skip(1));
            assert(b =~= seq![b[0]] + b.skip(1));
        }
    } else if a.len() == 0 && b.len() == 0 {
        assert(a =~= b);
    }
}

/// `x` in its place in a list that is in order.
pub open spec fn with_name(s: Seq<Seq<char>>, x: Seq<char>) -> Seq<Seq<char>>
    decreases s.len(),
{
    if s.len() == 0 || !reads_before(x, s.last()) {
        s.push(x)
    } else {
        with_name(s.drop_last(), x).push(s.last())
    }
}

/// The names in order.
pub open spec fn alphabetical(s: Seq<Seq<char>>) -> Seq<Seq<char>>
    decreases s.len(),
{
    if s.len() == 0 {
        s
    } else {
        with_name(alphabetical(s.drop_last()), s.last())
    }
}

pub open spec fn is_alphabetical(s: Seq<Seq<char>>) -> bool {
    forall|i: int, j: int| 0 <= i < j < s.len() ==> !reads_before(#[trigger] s[j], #[trigger] s[i])
}

proof fn lemma_with_name(s: Seq<Seq<char>>, x: Seq<char>)
    requires
        is_alphabetical(s),
    ensures
        is_alphabetical(with_name(s, x)),
        with_name(s, x).len() == s.len() + 1,
        with_name(s, x).to_multiset() == s.to_multiset().insert(x),
        with_name(s, x).last() == x || (s.len() > 0 && with_name(s, x).last() == s.last()),
    decreases s.len(),
{
    broadcast use vstd::seq_lib::group_to_multiset_ensures;
    broadcast use vstd::multiset::group_multiset_axioms;

    if s.len() > 0 && reads_before(x, s.last()) {
        let front = s.drop_last();
        let last = s.last();
        lemma_with_name(front, x);
        assert(front.push(last) =~= s);
        assert(with_name(s, x).to_multiset() =~= s.to_multiset().insert(x));
        let placed = with_name(front, x);
        let all = placed.push(last);
        assert forall|i: int, j: int| 0 <= i < j < all.len() implies !reads_before(
            #[trigger] all[j],
            #[trigger] all[i],
        ) by {
            if j == placed.len() {
                let top = placed.last();
                if top == x {
                    lemma_before_is_an_order(top, last, x);
                } else {
                    assert(!reads_before(s[s.len() - 1], s[s.len() - 2]));
                }
                assert(!reads_before(last, top));
                if i < placed.len() - 1 {
                    assert(!reads_before(placed[placed.len() - 1], placed[i]));
                    lemma_not_before_chain(last, top, placed[i]);
                }
            } else {
                assert(all[i] == placed[i] && all[j] == placed[j]);
            }
        }
    } else {
        let all = s.push(x);
        assert forall|i: int, j: int| 0 <= i < j < all.len() implies !reads_before(
            #[trigger] all[j],
            #[trigger] all[i],
        ) by {
            if j == s.len() {
                if i < s.len() - 1 {
                    assert(!reads_before(s[s.len() - 1], s[i]));
                    lemma_not_before_chain(x, s.last(), s[i]);
                }
            } else {
                assert(all[i] == s[i] && all[j] == s[j]);
            }
        }
    }
}

proof fn lemma_not_before_chain(a: Seq<char>, b: Seq<char>, c: Seq<char>)
    requires
        !reads_before(a, b),
        !reads_before(b, c),
    ensures
        !reads_before(a, c),
{
    lemma_before_is_an_order(a, b, c);
    lemma_before_is_an_order(b, a, c);
    lemma_before_is_an_order(b, c, a);
    lemma_before_is_an_order(c, b, a);
    lemma_before_is_an_order(a, c, b);
}

/// Putting names in order keeps every one of them, and none comes after one that
/// it reads before.
pub proof fn law_alphabetical_sorts(s: Seq<Seq<char>>)
    ensures
        is_alphabetical(alphabetical(s)),
        alphabetical(s).len() == s.len(),
        alphabetical(s).to_multiset() == s.to_multiset(),
    decreases s.len(),
{
    broadcast use vstd::seq_lib::group_to_multiset_ensures;

    if s.len() > 0 {
        law_alphabetical_sorts(s.drop_last());
        lemma_with_name(alphabetical(s.drop_last()), s.last());
        assert(s.drop_last().push(s.last()) =~= s);
    }
}

/// The order the names come in makes no difference once they are sorted.
pub proof fn law_alphabetical_ignores_arrival(a: Seq<Seq<char>>, b: Seq<Seq<char>>)
    requires
        a.to_multiset() == b.to_multiset(),
    ensures
        alphabetical(a) == alphabetical(b),
{
    let leq = |x: Seq<char>, y: Seq<char>| !reads_before(y, x);
    law_alphabetical_sorts(a);
    law_alphabetical_sorts(b);
    assert(vstd::relations::total_ordering(leq)) by {
        assert forall|x: Seq<char>| #[trigger] leq(x, x) by {
            lemma_before_is_an_order(x, x, x);
        }
        assert forall|x: Seq<char>, y: Seq<char>| #[trigger] leq(x, y) && #[trigger] leq(
            y,
            x,
        ) implies x == y by {
            lemma_before_is_an_order(x, y, x);
        }
        assert forall|x: Seq<char>, y: Seq<char>, z: Seq<char>| #[trigger] leq(
            x,
            y,
        ) && #[trigger] leq(y, z) implies leq(x, z) by {
            lemma_not_before_chain(z, y, x);
        }
        assert forall|x: Seq<char>, y: Seq<char>| #[trigger] leq(x, y) || #[trigger] leq(y, x) by {
            lemma_before_is_an_order(x, y, x);
        }
    }
    lemma_sorted_unique(alphabetical(a), alphabetical(b), leq);
}

proof fn lemma_name_place(s: Seq<Seq<char>>, x: Seq<char>, p: int)
    requires
        0 <= p <= s.len(),
        p > 0 ==> !reads_before(x, s[p - 1]),
        forall|i: int| p <= i < s.len() ==> reads_before(x, #[trigger] s[i]),
    ensures
        with_name(s, x) == s.insert(p, x),
    decreases s.len(),
{
    if p < s.len() {
        assert(reads_before(x, s[s.len() - 1]));
        assert forall|i: int| p <= i < s.drop_last().len() implies reads_before(
            x,
            #[trigger] s.drop_last()[i],
        ) by {
            assert(s.drop_last()[i] == s[i]);
        }
        lemma_name_place(s.drop_last(), x, p);
        assert(s.drop_last().insert(p, x).push(s.last()) =~= s.insert(p, x));
    } else {
        assert(s.insert(p, x) =~= s.push(x));
    }
}

/// What each of the names reads.
pub open spec fn name_views(names: Seq<String>) -> Seq<Seq<char>> {
    names.map_values(|n: String| n@)
}

/// The same names once more.
pub fn copied(names: &[String]) -> (r: Vec<String>)
    ensures
        name_views(r@) == name_views(names@),
        r@.len() == names@.len(),
{
    let mut out: Vec<String> = Vec::new();
    for i in 0..names.len()
        invariant
            out@.len() == i,
            name_views(out@) == name_views(names@).take(i as int),
    {
        let ghost before = out@;
        out.push(names[i].clone());
        proof {
            assert(name_views(out@) =~= name_views(before).push(names@[i as int]@));
            assert(name_views(names@).take(i + 1) =~= name_views(names@).take(i as int).push(
                name_views(names@)[i as int],
            ));
        }
    }
    assert(name_views(names@).take(names@.len() as int) =~= name_views(names@));
    out
}

/// Sorts the names.
pub fn sort_names(names: Vec<String>) -> (r: Vec<String>)
    ensures
        name_views(r@) == alphabetical(name_views(names@)),
        r@.len() == names@.len(),
{
    let ghost all = name_views(names@);
    let mut out: Vec<String> = Vec::new();
    assert(name_views(out@) =~= alphabetical(all.take(0)));
    for i in 0..names.len()
        invariant
            all == name_views(names@),
            name_views(out@) == alphabetical(all.take(i as int)),
            out@.len() == i,
    {
        let name = names[i].clone();
        let mut p: usize = out.len();
        while p > 0 && is_before(name.as_str(), out[p - 1].as_str())
            invariant
                p <= out@.len(),
                forall|k: int| p <= k < out@.len() ==> reads_before(name@, (#[trigger] out@[k])@),
            decreases p,
        {
            p -= 1;
        }
        let ghost before = out@;
        proof {
            let views = name_views(out@);
            assert forall|k: int| p <= k < views.len() implies reads_before(
                name@,
                #[trigger] views[k],
            ) by {
                assert(reads_before(name@, out@[k]@));
            }
            lemma_name_place(views, name@, p as int);
            assert(all.take(i + 1).drop_last() =~= all.take(i as int));
            assert(all.take(i + 1).last() == name@);
        }
        out.insert(p, name);
        assert(name_views(out@) =~= name_views(before).insert(p as int, name@));
    }
    assert(all.take(all.len() as int) =~= all);
    out
}

/// Names are told apart by the first character in which they differ, and a name comes
/// before the longer ones that it begins.
pub proof fn law_what_reads_first(
    common: Seq<char>,
    x: char,
    a: Seq<char>,
    y: char,
    b: Seq<char>,
)
    requires
        x != y,
    ensures
        reads_before(common + seq![x] + a, common + seq![y] + b) <==> x < y,
        reads_before(common, common + seq![x] + a),
        !reads_before(common + seq![x] + a, common),
        !reads_before(common, common),
    decreases common.len(),
{
    let p = common + seq![x] + a;
    let q = common + seq![y] + b;
    if common.len() == 0 {
        assert(p[0] == x && q[0] == y);
    } else {
        let rest = common.skip(1);
        law_what_reads_first(rest, x, a, y, b);
        assert(p[0] == common[0] && q[0] == common[0]);
        assert(p.skip(1) =~= rest + seq![x] + a);
        assert(q.skip(1) =~= rest + seq![y] + b);
    }
}

} // verus!

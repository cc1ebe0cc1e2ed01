//! Searching and sorting sequences.

use vstd::prelude::*;
use vstd::relations::{antisymmetric, reflexive, sorted_by, strongly_connected, total_ordering, transitive};

use crate::text::texts;

verus! {

/// The first result that `f` gives on `s`.
pub open spec fn first_some<A, B>(s: Seq<A>, f: spec_fn(A) -> Option<B>) -> Option<B>
    decreases s.len(),
{
    if s.len() == 0 {
        None
    } else {
        match f(s[0]) {
            Some(b) => Some(b),
            None => first_some(s.skip(1), f),
        }
    }
}

/// Once nothing was found in the first `i`, the search goes on from there.
pub proof fn lemma_first_some_skip<A, B>(s: Seq<A>, f: spec_fn(A) -> Option<B>, i: int)
    requires
        0 <= i <= s.len(),
        forall|j: int| 0 <= j < i ==> f(#[trigger] s[j]) is None,
    ensures
        first_some(s, f) == first_some(s.skip(i), f),
    decreases i,
{
    if i == 0 {
        assert(s.skip(0) =~= s);
    } else {
        assert forall|j: int| 0 <= j < i - 1 implies f(#[trigger] s.skip(1)[j]) is None by {
            assert(s.skip(1)[j] == s[j + 1]);
        }
        lemma_first_some_skip(s.skip(1), f, i - 1);
        assert(s.skip(1).skip(i - 1) =~= s.skip(i));
    }
}

/// The first `i` give nothing and the next one does: that is the result.
pub proof fn lemma_first_some_here<A, B>(s: Seq<A>, f: spec_fn(A) -> Option<B>, i: int)
    requires
        0 <= i < s.len(),
        forall|j: int| 0 <= j < i ==> f(#[trigger] s[j]) is None,
        f(s[i]) is Some,
    ensures
        first_some(s, f) == f(s[i]),
{
    lemma_first_some_skip(s, f, i);
    assert(s.skip(i)[0] == s[i]);
}

/// Nothing is found where every element gives nothing.
pub proof fn lemma_first_some_none<A, B>(s: Seq<A>, f: spec_fn(A) -> Option<B>)
    requires
        forall|j: int| 0 <= j < s.len() ==> f(#[trigger] s[j]) is None,
    ensures
        first_some(s, f) is None,
{
    lemma_first_some_skip(s, f, s.len() as int);
}

/// What a search that found nothing says of each element.
pub proof fn lemma_first_some_is_none<A, B>(s: Seq<A>, f: spec_fn(A) -> Option<B>)
    requires
        first_some(s, f) is None,
    ensures
        forall|j: int| 0 <= j < s.len() ==> f(#[trigger] s[j]) is None,
    decreases s.len(),
{
    if s.len() > 0 {
        lemma_first_some_is_none(s.skip(1), f);
        assert forall|j: int| 0 <= j < s.len() implies f(#[trigger] s[j]) is None by {
            if j > 0 {
                assert(s[j] == s.skip(1)[j - 1]);
            }
        }
    }
}

/// The place of the first element that `p` holds of.
pub open spec fn first_index<A>(s: Seq<A>, p: spec_fn(A) -> bool) -> Option<int> {
    if exists|i: int| is_first(s, p, i) {
        Some(choose|i: int| is_first(s, p, i))
    } else {
        None
    }
}

/// `i` is the first place at which `p` holds.
pub open spec fn is_first<A>(s: Seq<A>, p: spec_fn(A) -> bool, i: int) -> bool {
    &&& 0 <= i < s.len()
    &&& p(s[i])
    &&& forall|j: int| 0 <= j < i ==> !p(#[trigger] s[j])
}

pub proof fn lemma_first_index_here<A>(s: Seq<A>, p: spec_fn(A) -> bool, i: int)
    requires
        is_first(s, p, i),
    ensures
        first_index(s, p) == Some(i),
{
    let k = choose|k: int| is_first(s, p, k);
    assert(is_first(s, p, k));
    if k < i {
        assert(!p(s[k]));
    }
    if i < k {
        assert(!p(s[i]));
    }
}

pub proof fn lemma_first_index_none<A>(s: Seq<A>, p: spec_fn(A) -> bool)
    requires
        forall|j: int| 0 <= j < s.len() ==> !p(#[trigger] s[j]),
    ensures
        first_index(s, p) is None,
{
}

/// What a search for an element says.
pub proof fn lemma_first_index<A>(s: Seq<A>, p: spec_fn(A) -> bool)
    ensures
        match first_index(s, p) {
            Some(i) => is_first(s, p, i),
            None => forall|j: int| 0 <= j < s.len() ==> !p(#[trigger] s[j]),
        },
    decreases s.len(),
{
    if first_index(s, p) is None {
        assert forall|j: int| 0 <= j < s.len() implies !p(#[trigger] s[j]) by {
            if p(s[j]) {
                lemma_some_first(s, p, j);
            }
        }
    }
}

proof fn lemma_some_first<A>(s: Seq<A>, p: spec_fn(A) -> bool, j: int)
    requires
        0 <= j < s.len(),
        p(s[j]),
    ensures
        exists|i: int| is_first(s, p, i),
    decreases j,
{
    if forall|k: int| 0 <= k < j ==> !p(#[trigger] s[k]) {
        assert(is_first(s, p, j));
    } else {
        let k = choose|k: int| 0 <= k < j && p(#[trigger] s[k]);
        lemma_some_first(s, p, k);
    }
}

// ---------------------------------------------------------------------------
// The order of texts
// ---------------------------------------------------------------------------

/// Texts in the order of their characters, a prefix before what it begins.
pub open spec fn text_le(a: Seq<char>, b: Seq<char>) -> bool
    decreases a.len(),
{
    if a.len() == 0 {
        true
    } else if b.len() == 0 {
        false
    } else if a[0] != b[0] {
        a[0] < b[0]
    } else {
        text_le(a.skip(1), b.skip(1))
    }
}

pub open spec fn text_order() -> spec_fn(Seq<char>, Seq<char>) -> bool {
    |a: Seq<char>, b: Seq<char>| text_le(a, b)
}

pub proof fn lemma_text_le_total(a: Seq<char>, b: Seq<char>)
    ensures
        text_le(a, b) || text_le(b, a),
        text_le(a, b) && text_le(b, a) ==> a == b,
    decreases a.len(),
{
    if a.len() > 0 && b.len() > 0 && a[0] == b[0] {
        lemma_text_le_total(a.skip(1), b.skip(1));
        if text_le(a, b) && text_le(b, a) {
            assert(a.len() == b.len());
            assert forall|i: int| 0 <= i < a.len() implies a[i] == b[i] by {
                if i > 0 {
                    assert(a[i] == a.skip(1)[i - 1]);
                    assert(b[i] == b.skip(1)[i - 1]);
                }
            }
            assert(a =~= b);
        }
    } else if a.len() == 0 && b.len() == 0 {
        assert(a =~= b);
    }
}

pub proof fn lemma_text_le_transitive(a: Seq<char>, b: Seq<char>, c: Seq<char>)
    requires
        text_le(a, b),
        text_le(b, c),
    ensures
        text_le(a, c),
    decreases a.len(),
{
    if a.len() > 0 && b.len() > 0 && c.len() > 0 && a[0] == b[0] && b[0] == c[0] {
        lemma_text_le_transitive(a.skip(1), b.skip(1), c.skip(1));
    }
}

/// The order of texts is a total order.
pub proof fn lemma_text_order_is_total()
    ensures
        total_ordering(text_order()),
{
    let leq = text_order();
    assert forall|a: Seq<char>| #[trigger] leq(a, a) by {
        lemma_text_le_total(a, a);
    }
    assert forall|a: Seq<char>, b: Seq<char>| #[trigger] leq(a, b) && #[trigger] leq(b, a)
        implies a == b by {
        lemma_text_le_total(a, b);
    }
    assert forall|a: Seq<char>, b: Seq<char>, c: Seq<char>| #[trigger]
        leq(a, b) && #[trigger] leq(b, c) implies leq(a, c) by {
        lemma_text_le_transitive(a, b, c);
    }
    assert forall|a: Seq<char>, b: Seq<char>| #[trigger] leq(a, b) || #[trigger] leq(b, a) by {
        lemma_text_le_total(a, b);
    }
    assert(reflexive(leq));
    assert(antisymmetric(leq));
    assert(transitive(leq));
    assert(strongly_connected(leq));
}

/// Whether `a` comes before `b`, or is the same text.
pub fn is_text_le(a: &[char], b: &[char]) -> (r: bool)
    ensures
        r == text_le(a@, b@),
{
    let mut i: usize = 0;
    assert(a@.skip(0) =~= a@);
    assert(b@.skip(0) =~= b@);
    while i < a.len() && i < b.len()
        invariant
            i <= a.len(),
            i <= b.len(),
            text_le(a@, b@) == text_le(a@.skip(i as int), b@.skip(i as int)),
        decreases a.len() - i,
    {
        assert(a@.skip(i as int)[0] == a@[i as int]);
        assert(b@.skip(i as int)[0] == b@[i as int]);
        if a[i] != b[i] {
            return a[i] < b[i];
        }
        assert(a@.skip(i as int).skip(1) =~= a@.skip(i as int + 1));
        assert(b@.skip(i as int).skip(1) =~= b@.skip(i as int + 1));
        i += 1;
    }
    i == a.len()
}

/// Whether the string `a` comes before `b`, or is the same text.
pub fn is_str_le(a: &str, b: &str) -> (r: bool)
    ensures
        r == text_le(a@, b@),
{
    let x = crate::text::chars_of(a);
    let y = crate::text::chars_of(b);
    is_text_le(x.as_slice(), y.as_slice())
}

/// The texts in order.
pub open spec fn sorted_texts(s: Seq<Seq<char>>) -> Seq<Seq<char>> {
    s.sort_by(text_order())
}

/// Two lists of the same texts are the same once sorted.
pub proof fn lemma_sorted_texts_permute(a: Seq<Seq<char>>, b: Seq<Seq<char>>)
    requires
        a.to_multiset() == b.to_multiset(),
    ensures
        sorted_texts(a) == sorted_texts(b),
{
    lemma_text_order_is_total();
    a.lemma_sort_by_ensures(text_order());
    b.lemma_sort_by_ensures(text_order());
    vstd::seq_lib::lemma_sorted_unique(sorted_texts(a), sorted_texts(b), text_order());
}

/// Puts one more text into a sorted list, before the first that comes after it.
fn insert_sorted(v: &mut Vec<String>, s: String)
    requires
        sorted_by(texts(old(v)@), text_order()),
    ensures
        sorted_by(texts(final(v)@), text_order()),
        texts(final(v)@).to_multiset() == texts(old(v)@).to_multiset().insert(s@),
{
    let mut i: usize = 0;
    let ghost before = texts(v@);
    while i < v.len() && is_str_le(v[i].as_str(), s.as_str())
        invariant
            i <= v.len(),
            before == texts(v@),
            *v == *old(v),
            forall|j: int| 0 <= j < i ==> text_le(#[trigger] before[j], s@),
        decreases v.len() - i,
    {
        i += 1;
    }
    let ghost t = s@;
    v.insert(i, s);
    proof {
        let after = texts(v@);
        assert(after =~= before.insert(i as int, t));
        vstd::seq_lib::to_multiset_insert(before, i as int, t);
        lemma_text_order_is_total();
        let leq = text_order();
        assert forall|a: int, b: int| 0 <= a < b < after.len() implies #[trigger] leq(
            after[a],
            after[b],
        ) by {
            if a < i && b < i {
                assert(leq(before[a], before[b]));
            } else if a < i && b == i {
            } else if a < i && b > i {
                assert(leq(before[a], before[b - 1]));
            } else if a == i && b > i {
                lemma_text_le_total(before[i as int], t);
                if b - 1 > i {
                    assert(leq(before[i as int], before[b - 1]));
                    lemma_text_le_transitive(t, before[i as int], before[b - 1]);
                }
            } else {
                assert(leq(before[a - 1], before[b - 1]));
            }
        }
    }
}

/// Sorts strings.
pub fn sort_texts(v: &Vec<String>) -> (r: Vec<String>)
    ensures
        texts(r@) == sorted_texts(texts(v@)),
{
    let mut out: Vec<String> = Vec::new();
    let ghost all = texts(v@);
    let mut i: usize = 0;
    proof {
        assert(texts(out@) =~= Seq::<Seq<char>>::empty());
        assert(all.take(0) =~= Seq::<Seq<char>>::empty());
    }
    while i < v.len()
        invariant
            i <= v.len(),
            all == texts(v@),
            sorted_by(texts(out@), text_order()),
            texts(out@).to_multiset() == all.take(i as int).to_multiset(),
        decreases v.len() - i,
    {
        insert_sorted(&mut out, v[i].clone());
        proof {
            assert(all.take(i as int + 1) =~= all.take(i as int).push(all[i as int]));
            vstd::seq_lib::to_multiset_build(all.take(i as int), all[i as int]);
        }
        i += 1;
    }
    proof {
        assert(all.take(all.len() as int) =~= all);
        lemma_text_order_is_total();
        all.lemma_sort_by_ensures(text_order());
        vstd::seq_lib::lemma_sorted_unique(texts(out@), sorted_texts(all), text_order());
    }
    out
}

/// Sorting loses nothing.
pub proof fn lemma_sorted_texts_contains(s: Seq<Seq<char>>, t: Seq<char>)
    requires
        s.contains(t),
    ensures
        sorted_texts(s).contains(t),
{
    lemma_text_order_is_total();
    s.lemma_sort_by_ensures(text_order());
    s.to_multiset_ensures();
    sorted_texts(s).to_multiset_ensures();
    assert(s.to_multiset().count(t) > 0);
}

// ---------------------------------------------------------------------------
// Filtering
// ---------------------------------------------------------------------------

/// One more element, filtered.
pub proof fn lemma_filter_take<A>(s: Seq<A>, p: spec_fn(A) -> bool, i: int)
    requires
        0 <= i < s.len(),
    ensures
        s.take(i + 1).filter(p) == (if p(s[i]) {
            s.take(i).filter(p).push(s[i])
        } else {
            s.take(i).filter(p)
        }),
{
    assert(s.take(i + 1) =~= s.take(i).push(s[i]));
    s.take(i).lemma_filter_push(s[i], p);
}

pub proof fn lemma_filter_take_none<A>(s: Seq<A>, p: spec_fn(A) -> bool)
    ensures
        s.take(0).filter(p) == Seq::<A>::empty(),
        s.take(s.len() as int) == s,
{
    reveal(Seq::filter);
    assert(s.take(0) =~= Seq::<A>::empty());
    assert(s.take(0).filter(p) =~= Seq::<A>::empty());
    assert(s.take(s.len() as int) =~= s);
}

/// Filtering keeps the same elements whatever the order they come in.
pub proof fn lemma_filter_multiset<A>(s: Seq<A>, p: spec_fn(A) -> bool)
    ensures
        s.filter(p).to_multiset() =~= s.to_multiset().filter(p),
    decreases s.len(),
{
    broadcast use vstd::multiset::group_multiset_axioms;

    reveal(Seq::filter);
    if s.len() == 0 {
        assert(s.filter(p) =~= s);
        s.to_multiset_ensures();
        assert(s.to_multiset() =~= vstd::multiset::Multiset::<A>::empty()) by {
            vstd::seq_lib::to_multiset_len(s);
        }
    } else {
        let f = s.drop_last();
        lemma_filter_multiset(f, p);
        assert(s =~= f.push(s.last()));
        vstd::seq_lib::to_multiset_build(f, s.last());
        vstd::seq_lib::to_multiset_build(f.filter(p), s.last());
    }
}

/// Everything that is kept was there and passes, and everything that was there
/// and passes is kept.
pub proof fn lemma_filter_members<A>(s: Seq<A>, p: spec_fn(A) -> bool)
    ensures
        forall|i: int|
            0 <= i < s.filter(p).len() ==> p(#[trigger] s.filter(p)[i]) && s.contains(
                s.filter(p)[i],
            ),
        forall|i: int| 0 <= i < s.len() && p(s[i]) ==> s.filter(p).contains(#[trigger] s[i]),
    decreases s.len(),
{
    reveal(Seq::filter);
    if s.len() > 0 {
        let f = s.drop_last();
        lemma_filter_members(f, p);
        assert forall|i: int| 0 <= i < s.filter(p).len() implies p(#[trigger] s.filter(p)[i])
            && s.contains(s.filter(p)[i]) by {
            if i < f.filter(p).len() {
                assert(f.contains(f.filter(p)[i]));
                let k = choose|k: int| 0 <= k < f.len() && f[k] == f.filter(p)[i];
                assert(s[k] == s.filter(p)[i]);
            } else {
                assert(s[s.len() - 1] == s.filter(p)[i]);
            }
        }
        assert forall|i: int| 0 <= i < s.len() && p(s[i]) implies s.filter(p).contains(
            #[trigger] s[i],
        ) by {
            if i < f.len() {
                assert(f[i] == s[i]);
                assert(f.filter(p).contains(f[i]));
                let k = choose|k: int| 0 <= k < f.filter(p).len() && f.filter(p)[k] == f[i];
                assert(s.filter(p)[k] == s[i]);
            } else {
                assert(s.filter(p)[s.filter(p).len() - 1] == s[i]);
            }
        }
    }
}

/// Two elements that pass, at different places, leave at least two.
pub proof fn lemma_filter_two<A>(s: Seq<A>, p: spec_fn(A) -> bool, i: int, j: int)
    requires
        0 <= i < j < s.len(),
        p(s[i]),
        p(s[j]),
    ensures
        s.filter(p).len() >= 2,
    decreases s.len(),
{
    reveal(Seq::filter);
    let f = s.drop_last();
    if j < s.len() - 1 {
        lemma_filter_two(f, p, i, j);
    } else {
        lemma_filter_members(f, p);
        assert(f[i] == s[i]);
        assert(f.filter(p).contains(f[i]));
        let k = choose|k: int| 0 <= k < f.filter(p).len() && f.filter(p)[k] == f[i];
    }
}

/// Where `p` holds at one place alone, that element is all that is kept.
pub proof fn lemma_filter_one<A>(s: Seq<A>, p: spec_fn(A) -> bool, i: int)
    requires
        0 <= i < s.len(),
        p(s[i]),
        forall|j: int| 0 <= j < s.len() && j != i ==> !p(#[trigger] s[j]),
    ensures
        s.filter(p) == seq![s[i]],
    decreases s.len(),
{
    reveal(Seq::filter);
    let front = s.drop_last();
    if i == s.len() - 1 {
        lemma_filter_no_one(front, p);
        assert(s.filter(p) =~= seq![s[i]]);
    } else {
        assert forall|j: int| 0 <= j < front.len() && j != i implies !p(#[trigger] front[j]) by {
            assert(front[j] == s[j]);
        }
        assert(front[i] == s[i]);
        lemma_filter_one(front, p, i);
        assert(!p(s[s.len() - 1]));
    }
}

/// Where `p` holds nowhere, nothing is kept.
pub proof fn lemma_filter_no_one<A>(s: Seq<A>, p: spec_fn(A) -> bool)
    requires
        forall|j: int| 0 <= j < s.len() ==> !p(#[trigger] s[j]),
    ensures
        s.filter(p) == Seq::<A>::empty(),
    decreases s.len(),
{
    reveal(Seq::filter);
    if s.len() > 0 {
        let front = s.drop_last();
        assert forall|j: int| 0 <= j < front.len() implies !p(#[trigger] front[j]) by {
            assert(front[j] == s[j]);
        }
        lemma_filter_no_one(front, p);
        assert(!p(s[s.len() - 1]));
    }
}

/// What is left of what is left is what both leave.
pub proof fn lemma_filter_twice<A>(s: Seq<A>, p: spec_fn(A) -> bool, q: spec_fn(A) -> bool)
    ensures
        s.filter(p).filter(q) == s.filter(|a: A| p(a) && q(a)),
    decreases s.len(),
{
    reveal(Seq::filter);
    if s.len() > 0 {
        let front = s.drop_last();
        lemma_filter_twice(front, p, q);
        if p(s.last()) {
            let kept = front.filter(p);
            assert(kept.push(s.last()).drop_last() =~= kept);
            assert(kept.push(s.last()).last() == s.last());
        }
    }
}

/// What is found first is what the first element that gives anything gives.
pub proof fn lemma_first_some_reaches<A, B>(s: Seq<A>, f: spec_fn(A) -> Option<B>, i: int)
    requires
        0 <= i < s.len(),
        forall|j: int| 0 <= j < i ==> f(#[trigger] s[j]) is None,
        f(s[i]) is Some,
    ensures
        first_some(s, f) == f(s[i]),
    decreases s.len(),
{
    let rest = s.skip(1);
    if i > 0 {
        assert(f(s[0]) is None);
        assert forall|j: int| 0 <= j < i - 1 implies f(#[trigger] rest[j]) is None by {
            assert(rest[j] == s[j + 1]);
        }
        assert(rest[i - 1] == s[i]);
        lemma_first_some_reaches(rest, f, i - 1);
    }
}

} // verus!

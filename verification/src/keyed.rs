//! Values kept under texts, in the order of the texts.

use vstd::prelude::*;

use crate::seqs::{
    first_index, is_str_le, lemma_first_index, lemma_first_index_here, lemma_first_index_none,
    lemma_text_le_total, lemma_text_le_transitive, text_le,
};
use crate::text::{same, texts};

verus! {

/// Values under their keys, in the order of the keys, each key once.
#[derive(Debug, PartialEq, Eq)]
pub struct Keyed<V> {
    pub entries: Vec<(String, V)>,
}

/// One text comes before another.
pub open spec fn precedes(a: Seq<char>, b: Seq<char>) -> bool {
    text_le(a, b) && a != b
}

/// Keys in order, each once.
#[verifier::opaque]
pub open spec fn in_order<V>(s: Seq<(Seq<char>, V)>) -> bool {
    forall|i: int, j: int| 0 <= i < j < s.len() ==> precedes(#[trigger] s[i].0, #[trigger] s[j].0)
}

pub open spec fn under<V>(key: Seq<char>) -> spec_fn((Seq<char>, V)) -> bool {
    |e: (Seq<char>, V)| e.0 == key
}

pub open spec fn below<V>(key: Seq<char>) -> spec_fn((Seq<char>, V)) -> bool {
    |e: (Seq<char>, V)| precedes(e.0, key)
}

pub open spec fn above<V>(key: Seq<char>) -> spec_fn((Seq<char>, V)) -> bool {
    |e: (Seq<char>, V)| precedes(key, e.0)
}

pub open spec fn elsewhere<V>(key: Seq<char>) -> spec_fn((Seq<char>, V)) -> bool {
    |e: (Seq<char>, V)| e.0 != key
}

/// What is kept under a key.
pub open spec fn got<V>(s: Seq<(Seq<char>, V)>, key: Seq<char>) -> Option<V> {
    match first_index(s, under(key)) {
        Some(i) => Some(s[i].1),
        None => None,
    }
}

/// A value put under a key, in place of what was there.
#[verifier::opaque]
pub open spec fn inserted<V>(s: Seq<(Seq<char>, V)>, key: Seq<char>, value: V) -> Seq<
    (Seq<char>, V),
> {
    s.filter(below(key)).push((key, value)) + s.filter(above(key))
}

/// What is left without a key.
#[verifier::opaque]
pub open spec fn removed<V>(s: Seq<(Seq<char>, V)>, key: Seq<char>) -> Seq<(Seq<char>, V)> {
    s.filter(elsewhere(key))
}

pub open spec fn keys_in<V>(s: Seq<(Seq<char>, V)>) -> Seq<Seq<char>> {
    s.map_values(|e: (Seq<char>, V)| e.0)
}

proof fn lemma_filter_prefix<A>(s: Seq<A>, p: spec_fn(A) -> bool, i: int)
    requires
        0 <= i <= s.len(),
        forall|j: int| 0 <= j < i ==> p(#[trigger] s[j]),
        forall|j: int| i <= j < s.len() ==> !p(#[trigger] s[j]),
    ensures
        s.filter(p) == s.take(i),
    decreases s.len(),
{
    reveal(Seq::filter);
    if s.len() == 0 {
        assert(s.filter(p) =~= s.take(i));
    } else {
        let f = s.drop_last();
        if i < s.len() {
            lemma_filter_prefix(f, p, i);
            assert(!p(s[s.len() - 1]));
            assert(f.take(i) =~= s.take(i));
        } else {
            lemma_filter_prefix(f, p, i - 1);
            assert(p(s[s.len() - 1]));
            assert(f.take(i - 1) =~= f);
            assert(f.push(s.last()) =~= s.take(i));
        }
    }
}

proof fn lemma_filter_suffix<A>(s: Seq<A>, p: spec_fn(A) -> bool, i: int)
    requires
        0 <= i <= s.len(),
        forall|j: int| 0 <= j < i ==> !p(#[trigger] s[j]),
        forall|j: int| i <= j < s.len() ==> p(#[trigger] s[j]),
    ensures
        s.filter(p) == s.skip(i),
    decreases s.len(),
{
    reveal(Seq::filter);
    if s.len() == 0 {
        assert(s.filter(p) =~= s.skip(i));
    } else {
        let f = s.drop_last();
        if i < s.len() {
            lemma_filter_suffix(f, p, i);
            assert(p(s[s.len() - 1]));
            assert(f.skip(i).push(s.last()) =~= s.skip(i));
        } else {
            lemma_filter_suffix(f, p, i - 1);
            assert(!p(s[s.len() - 1]));
            assert(f.skip(i - 1) =~= s.skip(i));
        }
    }
}

/// Where a key belongs: everything before `i` precedes it, and everything from
/// `j` on follows it, with at most the key itself in between.
proof fn lemma_inserted<V>(s: Seq<(Seq<char>, V)>, key: Seq<char>, value: V, i: int, j: int)
    requires
        in_order(s),
        0 <= i <= j <= s.len(),
        forall|k: int| 0 <= k < i ==> precedes((#[trigger] s[k]).0, key),
        forall|k: int| i <= k < j ==> (#[trigger] s[k]).0 == key,
        forall|k: int| j <= k < s.len() ==> precedes(key, (#[trigger] s[k]).0),
    ensures
        inserted(s, key, value) == s.take(i).push((key, value)) + s.skip(j),
        in_order(inserted(s, key, value)),
{
    reveal(inserted);
    reveal(in_order);
    assert forall|k: int| i <= k < s.len() implies !below::<V>(key)(#[trigger] s[k]) by {
        lemma_text_le_total(s[k].0, key);
    }
    lemma_filter_prefix(s, below(key), i);
    assert forall|k: int| 0 <= k < j implies !above::<V>(key)(#[trigger] s[k]) by {
        lemma_text_le_total(s[k].0, key);
    }
    lemma_filter_suffix(s, above(key), j);
    let r = inserted(s, key, value);
    assert forall|a: int, b: int| 0 <= a < b < r.len() implies precedes(
        #[trigger] r[a].0,
        #[trigger] r[b].0,
    ) by {
        if b < i {
            assert(r[a] == s[a] && r[b] == s[b]);
        } else if a > i {
            assert(r[a] == s[j + a - i - 1] && r[b] == s[j + b - i - 1]);
        } else if a < i && b == i {
            assert(r[a] == s[a]);
        } else if a == i {
            assert(r[b] == s[j + b - i - 1]);
        } else {
            assert(r[a] == s[a] && r[b] == s[j + b - i - 1]);
        }
    }
}

impl<V> Keyed<V> {
    /// The entries, in order.
    pub open spec fn seq(&self) -> Seq<(Seq<char>, V)> {
        self.entries@.map_values(|e: (String, V)| (e.0@, e.1))
    }

    /// Keys in order, each once.
    pub open spec fn wf(&self) -> bool {
        in_order(self.seq())
    }

    pub fn new() -> (r: Self)
        ensures
            r.wf(),
            r.seq() == Seq::<(Seq<char>, V)>::empty(),
    {
        let r = Keyed { entries: Vec::new() };
        proof {
            reveal(in_order);
        }
        assert(r.seq() =~= Seq::<(Seq<char>, V)>::empty());
        r
    }

    pub fn is_empty(&self) -> (r: bool)
        ensures
            r == (self.seq().len() == 0),
    {
        self.entries.len() == 0
    }

    fn place(&self, key: &str) -> (r: Option<usize>)
        ensures
            match r {
                Some(i) => i < self.entries@.len() && first_index(self.seq(), under(key@)) == Some(
                    i as int,
                ),
                None => first_index(self.seq(), under::<V>(key@)) is None,
            },
    {
        let ghost s = self.seq();
        let mut i: usize = 0;
        while i < self.entries.len()
            invariant
                i <= self.entries@.len(),
                s == self.seq(),
                forall|j: int| 0 <= j < i ==> !under::<V>(key@)(#[trigger] s[j]),
            decreases self.entries@.len() - i,
        {
            assert(s[i as int].0 == self.entries@[i as int].0@);
            if same(self.entries[i].0.as_str(), key) {
                proof {
                    lemma_first_index_here(s, under::<V>(key@), i as int);
                }
                return Some(i);
            }
            i += 1;
        }
        proof {
            lemma_first_index_none(s, under::<V>(key@));
        }
        None
    }

    /// What is kept under a key.
    pub fn get(&self, key: &str) -> (r: Option<&V>)
        ensures
            match r {
                Some(v) => got(self.seq(), key@) == Some(*v),
                None => got(self.seq(), key@) is None,
            },
    {
        match self.place(key) {
            Some(i) => Some(&self.entries[i].1),
            None => None,
        }
    }

    pub fn contains_key(&self, key: &str) -> (r: bool)
        ensures
            r == (got(self.seq(), key@) is Some),
    {
        self.place(key).is_some()
    }

    /// Puts a value under a key, in place of what was there.
    pub fn insert(&mut self, key: String, value: V)
        requires
            old(self).wf(),
        ensures
            final(self).wf(),
            final(self).seq() == inserted(old(self).seq(), key@, value),
    {
        let ghost s = self.seq();
        let mut i: usize = 0;
        while i < self.entries.len() && !is_str_le(key.as_str(), self.entries[i].0.as_str())
            invariant
                i <= self.entries@.len(),
                s == self.seq(),
                forall|k: int| 0 <= k < i ==> precedes((#[trigger] s[k]).0, key@),
            decreases self.entries@.len() - i,
        {
            assert(s[i as int].0 == self.entries@[i as int].0@);
            proof {
                lemma_text_le_total(key@, s[i as int].0);
            }
            i += 1;
        }
        let there = i < self.entries.len() && same(self.entries[i].0.as_str(), key.as_str());
        let ghost j: int = if there {
            i + 1
        } else {
            i as int
        };
        proof {
            reveal(in_order);
            if i < s.len() {
                assert(s[i as int].0 == self.entries@[i as int].0@);
                assert forall|k: int| j <= k < s.len() implies precedes(
                    key@,
                    (#[trigger] s[k]).0,
                ) by {
                    if k > i {
                        assert(precedes(s[i as int].0, s[k].0));
                        lemma_text_le_transitive(key@, s[i as int].0, s[k].0);
                        lemma_text_le_total(s[i as int].0, s[k].0);
                        if key@ == s[k].0 {
                            assert(text_le(s[k].0, s[i as int].0));
                        }
                    }
                }
            }
            lemma_inserted(s, key@, value, i as int, j);
        }
        let ghost name = key@;
        if there {
            let old_entry = self.entries.remove(i);
            assert(self.seq() =~= s.remove(i as int));
            self.entries.insert(i, (key, value));
        } else {
            self.entries.insert(i, (key, value));
        }
        assert(self.seq() =~= s.take(i as int).push((name, value)) + s.skip(j));
    }

    /// Takes a key away, with what was under it.
    pub fn remove(&mut self, key: &str)
        requires
            old(self).wf(),
        ensures
            final(self).wf(),
            final(self).seq() == removed(old(self).seq(), key@),
    {
        let ghost s = self.seq();
        proof {
            lemma_first_index(s, under::<V>(key@));
        }
        match self.place(key) {
            Some(i) => {
                let ghost at = i as int;
                let gone = self.entries.remove(i);
                assert(self.seq() =~= s.remove(at));
                proof {
                    lemma_removed(s, key@, at);
                }
            },
            None => {
                proof {
                    reveal(removed);
                    assert forall|k: int| 0 <= k < s.len() implies elsewhere::<V>(key@)(
                        #[trigger] s[k],
                    ) by {
                        assert(!under::<V>(key@)(s[k]));
                    }
                    lemma_filter_prefix(s, elsewhere(key@), s.len() as int);
                    assert(s.take(s.len() as int) =~= s);
                }
            },
        }
    }

    /// The keys, in order.
    pub fn keys(&self) -> (r: Vec<String>)
        ensures
            texts(r@) == keys_in(self.seq()),
    {
        let ghost want = keys_in(self.seq());
        let mut out: Vec<String> = Vec::new();
        let mut i: usize = 0;
        assert(texts(out@) =~= want.take(0));
        while i < self.entries.len()
            invariant
                i <= self.entries@.len(),
                want == keys_in(self.seq()),
                texts(out@) == want.take(i as int),
            decreases self.entries@.len() - i,
        {
            assert(self.seq()[i as int].0 == self.entries@[i as int].0@);
            let ghost had = texts(out@);
            out.push(self.entries[i].0.clone());
            assert(texts(out@) =~= had.push(want[i as int]));
            i += 1;
        }
        assert(want.take(want.len() as int) =~= want);
        out
    }
}

proof fn lemma_removed<V>(s: Seq<(Seq<char>, V)>, key: Seq<char>, at: int)
    requires
        in_order(s),
        0 <= at < s.len(),
        s[at].0 == key,
    ensures
        removed(s, key) == s.remove(at),
        in_order(s.remove(at)),
    decreases s.len(),
{
    reveal(removed);
    reveal(in_order);
    reveal(Seq::filter);
    let f = s.drop_last();
    let last = s.last();
    if at == s.len() - 1 {
        assert forall|k: int| 0 <= k < f.len() implies elsewhere::<V>(key)(#[trigger] f[k]) by {
            assert(precedes(s[k].0, s[at].0));
        }
        lemma_filter_prefix(f, elsewhere(key), f.len() as int);
        assert(f.take(f.len() as int) =~= f);
        assert(s.remove(at) =~= f);
    } else {
        assert(precedes(s[at].0, s[s.len() - 1].0));
        lemma_removed(f, key, at);
        assert(s.remove(at) =~= f.remove(at).push(last));
    }
    let r = s.remove(at);
    assert forall|a: int, b: int| 0 <= a < b < r.len() implies precedes(
        #[trigger] r[a].0,
        #[trigger] r[b].0,
    ) by {
        let x = if a < at {
            a
        } else {
            a + 1
        };
        let y = if b < at {
            b
        } else {
            b + 1
        };
        assert(r[a] == s[x] && r[b] == s[y]);
    }
}

/// What was put under a key is found under it; what is under any other key
/// stays as it was.
pub proof fn law_what_is_kept_is_found<V>(
    s: Seq<(Seq<char>, V)>,
    key: Seq<char>,
    value: V,
    other: Seq<char>,
)
    requires
        in_order(s),
    ensures
        got(inserted(s, key, value), key) == Some(value),
        other != key ==> got(inserted(s, key, value), other) == got(s, other),
        other != key ==> got(removed(s, key), other) == got(s, other),
        got(removed(s, key), key) is None,
{
    reveal(removed);
    reveal(inserted);
    let below_key = s.filter(below(key));
    let r = inserted(s, key, value);
    crate::seqs::lemma_filter_members(s, below::<V>(key));
    crate::seqs::lemma_filter_members(s, above::<V>(key));
    crate::seqs::lemma_filter_members(s, elsewhere::<V>(key));
    // The value itself.
    let at = below_key.len() as int;
    assert(r[at] == (key, value));
    assert forall|j: int| 0 <= j < at implies !under::<V>(key)(#[trigger] r[j]) by {
        assert(r[j] == below_key[j]);
    }
    lemma_first_index_here(r, under(key), at);
    // Other keys.
    if other != key {
        lemma_same_under(s, r, other, key, value);
        lemma_same_removed(s, key, other);
    }
    let left = removed(s, key);
    assert forall|j: int| 0 <= j < left.len() implies !under::<V>(key)(#[trigger] left[j]) by {}
    lemma_first_index_none(left, under(key));
}

/// A key stands at most once, so whatever is found at its place is what is
/// under it.
proof fn lemma_got_at<V>(s: Seq<(Seq<char>, V)>, key: Seq<char>, i: int)
    requires
        in_order(s),
        0 <= i < s.len(),
        s[i].0 == key,
    ensures
        got(s, key) == Some(s[i].1),
{
    reveal(in_order);
    assert forall|j: int| 0 <= j < i implies !under::<V>(key)(#[trigger] s[j]) by {
        assert(precedes(s[j].0, s[i].0));
    }
    lemma_first_index_here(s, under(key), i);
}

proof fn lemma_got_none<V>(s: Seq<(Seq<char>, V)>, key: Seq<char>)
    requires
        forall|i: int| 0 <= i < s.len() ==> (#[trigger] s[i]).0 != key,
    ensures
        got(s, key) is None,
{
    lemma_first_index_none(s, under(key));
}

/// Where a key belongs among the first `n` entries.
proof fn lemma_split<V>(s: Seq<(Seq<char>, V)>, key: Seq<char>, n: int) -> (r: (int, int))
    requires
        in_order(s),
        0 <= n <= s.len(),
    ensures
        0 <= r.0 <= r.1 <= n,
        forall|k: int| 0 <= k < r.0 ==> precedes((#[trigger] s[k]).0, key),
        forall|k: int| r.0 <= k < r.1 ==> (#[trigger] s[k]).0 == key,
        forall|k: int| r.1 <= k < n ==> precedes(key, (#[trigger] s[k]).0),
    decreases n,
{
    reveal(in_order);
    if n == 0 {
        (0, 0)
    } else {
        let (i, j) = lemma_split(s, key, n - 1);
        let last = s[n - 1].0;
        lemma_text_le_total(last, key);
        if precedes(last, key) {
            assert forall|k: int| 0 <= k < n implies precedes((#[trigger] s[k]).0, key) by {
                if k < n - 1 {
                    assert(precedes(s[k].0, s[n - 1].0));
                    lemma_text_le_transitive(s[k].0, last, key);
                    lemma_text_le_total(s[k].0, last);
                }
            }
            (n, n)
        } else if last == key {
            assert forall|k: int| 0 <= k < n - 1 implies precedes((#[trigger] s[k]).0, key) by {
                assert(precedes(s[k].0, s[n - 1].0));
            }
            (n - 1, n)
        } else {
            (i, j)
        }
    }
}

proof fn lemma_same_under<V>(
    s: Seq<(Seq<char>, V)>,
    r: Seq<(Seq<char>, V)>,
    other: Seq<char>,
    key: Seq<char>,
    value: V,
)
    requires
        in_order(s),
        r == inserted(s, key, value),
        other != key,
    ensures
        got(r, other) == got(s, other),
{
    let (i, j) = lemma_split(s, key, s.len() as int);
    lemma_inserted(s, key, value, i, j);
    lemma_first_index(s, under::<V>(other));
    match first_index(s, under::<V>(other)) {
        Some(k) => {
            let at = if k < i {
                k
            } else {
                k - j + i + 1
            };
            assert(s[k].0 == other);
            assert(k < i || k >= j);
            assert(r[at] == s[k]);
            lemma_got_at(r, other, at);
        },
        None => {
            assert forall|k: int| 0 <= k < r.len() implies (#[trigger] r[k]).0 != other by {
                if k < i {
                    assert(r[k] == s[k]);
                    assert(!under::<V>(other)(s[k]));
                } else if k > i {
                    assert(r[k] == s[j + k - i - 1]);
                    assert(!under::<V>(other)(s[j + k - i - 1]));
                }
            }
            lemma_got_none(r, other);
        },
    }
}

proof fn lemma_same_removed<V>(s: Seq<(Seq<char>, V)>, key: Seq<char>, other: Seq<char>)
    requires
        in_order(s),
        other != key,
    ensures
        got(removed(s, key), other) == got(s, other),
{
    reveal(removed);
    lemma_first_index(s, under::<V>(key));
    lemma_first_index(s, under::<V>(other));
    match first_index(s, under::<V>(key)) {
        None => {
            assert forall|k: int| 0 <= k < s.len() implies elsewhere::<V>(key)(#[trigger] s[k]) by {
                assert(!under::<V>(key)(s[k]));
            }
            lemma_filter_prefix(s, elsewhere(key), s.len() as int);
            assert(s.take(s.len() as int) =~= s);
        },
        Some(at) => {
            lemma_removed(s, key, at);
            let r = s.remove(at);
            match first_index(s, under::<V>(other)) {
                Some(k) => {
                    let there = if k < at {
                        k
                    } else {
                        k - 1
                    };
                    assert(r[there] == s[k]);
                    lemma_got_at(r, other, there);
                },
                None => {
                    assert forall|k: int| 0 <= k < r.len() implies (#[trigger] r[k]).0 != other by {
                        let x = if k < at {
                            k
                        } else {
                            k + 1
                        };
                        assert(r[k] == s[x]);
                        assert(!under::<V>(other)(s[x]));
                    }
                    lemma_got_none(r, other);
                },
            }
        },
    }
}

/// Taking away what was put under a new key leaves everything as it was.
pub proof fn law_removing_undoes_inserting<V>(
    s: Seq<(Seq<char>, V)>,
    key: Seq<char>,
    value: V,
)
    requires
        in_order(s),
        got(s, key) is None,
    ensures
        removed(inserted(s, key, value), key) == s,
        in_order(inserted(s, key, value)),
{
    let (i, j) = lemma_split(s, key, s.len() as int);
    lemma_inserted(s, key, value, i, j);
    lemma_first_index(s, under::<V>(key));
    if i < j {
        assert(under::<V>(key)(s[i]));
    }
    let r = inserted(s, key, value);
    assert(r[i] == (key, value));
    lemma_removed(r, key, i);
    assert(r.remove(i) =~= s);
}

/// An entry put among others none of which fits is the one that does.
pub proof fn lemma_lone_fit<V>(
    s: Seq<(Seq<char>, V)>,
    p: spec_fn((Seq<char>, V)) -> bool,
    key: Seq<char>,
    value: V,
)
    requires
        p((key, value)),
        forall|i: int| 0 <= i < s.len() ==> !p(#[trigger] s[i]),
    ensures
        first_index(inserted(s, key, value), p) is Some,
        inserted(s, key, value)[first_index(inserted(s, key, value), p)->0] == (key, value),
{
    reveal(inserted);
    let lower = s.filter(below(key));
    let all = inserted(s, key, value);
    let at = lower.len() as int;
    assert(all[at] == (key, value));
    assert forall|j: int| 0 <= j < at implies !p(#[trigger] all[j]) by {
        assert(all[j] == lower[j]);
        assert(s.contains(lower[j])) by {
            crate::seqs::lemma_filter_members(s, below::<V>(key));
        }
        let k = choose|k: int| 0 <= k < s.len() && s[k] == lower[j];
        assert(!p(s[k]));
    }
    lemma_first_index_here(all, p, at);
}

} // verus!

//! Text as sequences of characters.
//!
//! Everything this library reads or prints is text, so the operations on it
//! are specified once, here, over `Seq<char>`. The executable functions work
//! on character slices, which can be indexed and cut in constant time.

use vstd::prelude::*;
use vstd::slice::slice_subrange;

use crate::seqs::{
    first_index, lemma_filter_take, lemma_filter_take_none, lemma_first_index_here,
    lemma_first_index_none,
};

verus! {

/// `String::push` appends one character at the end.
pub assume_specification[ String::push ](s: &mut String, ch: char)
    ensures
        final(s)@ == old(s)@.push(ch),
;

// ---------------------------------------------------------------------------
// Characters
// ---------------------------------------------------------------------------

/// The characters with the Unicode `White_Space` property.
pub open spec fn white_space(c: char) -> bool {
    ||| '\u{9}' <= c <= '\u{d}'
    ||| c == ' '
    ||| c == '\u{85}'
    ||| c == '\u{a0}'
    ||| c == '\u{1680}'
    ||| '\u{2000}' <= c <= '\u{200a}'
    ||| c == '\u{2028}'
    ||| c == '\u{2029}'
    ||| c == '\u{202f}'
    ||| c == '\u{205f}'
    ||| c == '\u{3000}'
}

/// Whether `c` has the Unicode `White_Space` property.
pub fn is_white_space(c: char) -> (r: bool)
    ensures
        r == white_space(c),
{
    ('\u{9}' <= c && c <= '\u{d}') || c == ' ' || c == '\u{85}' || c == '\u{a0}' || c == '\u{1680}'
        || ('\u{2000}' <= c && c <= '\u{200a}') || c == '\u{2028}' || c == '\u{2029}' || c
        == '\u{202f}' || c == '\u{205f}' || c == '\u{3000}'
}

pub open spec fn ascii_digit(c: char) -> bool {
    '0' <= c <= '9'
}

pub open spec fn ascii_upper_letter(c: char) -> bool {
    'A' <= c <= 'Z'
}

pub open spec fn ascii_lower_letter(c: char) -> bool {
    'a' <= c <= 'z'
}

pub open spec fn ascii_alphanumeric(c: char) -> bool {
    ascii_digit(c) || ascii_upper_letter(c) || ascii_lower_letter(c)
}

/// Whether `c` is an ASCII letter or digit.
pub fn is_ascii_alphanumeric(c: char) -> (r: bool)
    ensures
        r == ascii_alphanumeric(c),
{
    ('0' <= c && c <= '9') || ('A' <= c && c <= 'Z') || ('a' <= c && c <= 'z')
}

/// `c` in lower case, when it is an ASCII letter.
pub open spec fn ascii_lower(c: char) -> char {
    if ascii_upper_letter(c) {
        (c as u32 + 32) as char
    } else {
        c
    }
}

/// `c` in upper case, when it is an ASCII letter.
pub open spec fn ascii_upper(c: char) -> char {
    if ascii_lower_letter(c) {
        (c as u32 - 32) as char
    } else {
        c
    }
}

pub fn to_ascii_lower(c: char) -> (r: char)
    ensures
        r == ascii_lower(c),
{
    if 'A' <= c && c <= 'Z' {
        ((c as u8) + 32) as char
    } else {
        c
    }
}

pub fn to_ascii_upper(c: char) -> (r: char)
    ensures
        r == ascii_upper(c),
{
    if 'a' <= c && c <= 'z' {
        ((c as u8) - 32) as char
    } else {
        c
    }
}

pub open spec fn lower_all(s: Seq<char>) -> Seq<char> {
    s.map_values(|c: char| ascii_lower(c))
}

pub open spec fn upper_all(s: Seq<char>) -> Seq<char> {
    s.map_values(|c: char| ascii_upper(c))
}

/// Equality that ignores the case of ASCII letters.
pub open spec fn same_ignoring_case(a: Seq<char>, b: Seq<char>) -> bool {
    lower_all(a) == lower_all(b)
}

// ---------------------------------------------------------------------------
// Between strings and slices
// ---------------------------------------------------------------------------

/// The contents of a list of strings.
pub open spec fn texts(v: Seq<String>) -> Seq<Seq<char>> {
    v.map_values(|s: String| s@)
}

/// The contents of a list of pieces of text.
pub open spec fn pieces(v: Seq<&[char]>) -> Seq<Seq<char>> {
    v.map_values(|s: &[char]| s@)
}

/// The contents of an optional string.
pub open spec fn opt_text(o: Option<String>) -> Option<Seq<char>> {
    match o {
        Some(s) => Some(s@),
        None => None,
    }
}

/// The characters of `s`, as a vector that can be indexed.
pub fn chars_of(s: &str) -> (r: Vec<char>)
    ensures
        r@ == s@,
{
    let mut out: Vec<char> = Vec::new();
    for c in it: s.chars()
        invariant
            it.seq() == s@,
            out@ == s@.take(it.index() as int),
    {
        out.push(c);
        assert(s@.take(it.index() as int + 1) =~= s@.take(it.index() as int).push(c));
    }
    assert(s@.take(s@.len() as int) =~= s@);
    out
}

/// The string made of these characters.
pub fn string_of(cs: &[char]) -> (r: String)
    ensures
        r@ == cs@,
{
    let mut out = String::new();
    let mut i: usize = 0;
    while i < cs.len()
        invariant
            i <= cs.len(),
            out@ == cs@.take(i as int),
        decreases cs.len() - i,
    {
        out.push(cs[i]);
        assert(cs@.take(i as int + 1) =~= cs@.take(i as int).push(cs@[i as int]));
        i += 1;
    }
    assert(cs@.take(cs@.len() as int) =~= cs@);
    out
}

/// A copy of an optional string.
pub fn copy_opt(o: &Option<String>) -> (r: Option<String>)
    ensures
        opt_text(r) == opt_text(*o),
        r is Some <==> o is Some,
{
    match o {
        Some(s) => Some(s.clone()),
        None => None,
    }
}

/// A copy of a list of strings.
pub fn copy_texts(v: &Vec<String>) -> (r: Vec<String>)
    ensures
        texts(r@) == texts(v@),
{
    let mut out: Vec<String> = Vec::new();
    let mut i: usize = 0;
    while i < v.len()
        invariant
            i <= v.len(),
            texts(out@) == texts(v@).take(i as int),
        decreases v.len() - i,
    {
        out.push(v[i].clone());
        assert(texts(out@) =~= texts(v@).take(i as int).push(v@[i as int]@));
        assert(texts(v@).take(i as int + 1) =~= texts(v@).take(i as int).push(v@[i as int]@));
        i += 1;
    }
    assert(texts(v@).take(v@.len() as int) =~= texts(v@));
    out
}

/// The two texts one after the other.
pub fn cat2(a: &str, b: &str) -> (r: String)
    ensures
        r@ == a@ + b@,
{
    let mut out = a.to_owned();
    out.append(b);
    out
}

pub fn cat3(a: &str, b: &str, c: &str) -> (r: String)
    ensures
        r@ == a@ + b@ + c@,
{
    let mut out = cat2(a, b);
    out.append(c);
    out
}

pub fn cat4(a: &str, b: &str, c: &str, d: &str) -> (r: String)
    ensures
        r@ == a@ + b@ + c@ + d@,
{
    let mut out = cat3(a, b, c);
    out.append(d);
    out
}

pub fn cat5(a: &str, b: &str, c: &str, d: &str, e: &str) -> (r: String)
    ensures
        r@ == a@ + b@ + c@ + d@ + e@,
{
    let mut out = cat4(a, b, c, d);
    out.append(e);
    out
}

pub fn cat6(a: &str, b: &str, c: &str, d: &str, e: &str, f: &str) -> (r: String)
    ensures
        r@ == a@ + b@ + c@ + d@ + e@ + f@,
{
    let mut out = cat5(a, b, c, d, e);
    out.append(f);
    out
}

pub fn cat7(a: &str, b: &str, c: &str, d: &str, e: &str, f: &str, g: &str) -> (r: String)
    ensures
        r@ == a@ + b@ + c@ + d@ + e@ + f@ + g@,
{
    let mut out = cat6(a, b, c, d, e, f);
    out.append(g);
    out
}

// ---------------------------------------------------------------------------
// Comparing
// ---------------------------------------------------------------------------

/// Whether two pieces of text are the same.
pub fn same_chars(a: &[char], b: &[char]) -> (r: bool)
    ensures
        r == (a@ == b@),
{
    if a.len() != b.len() {
        return false;
    }
    let mut i: usize = 0;
    while i < a.len()
        invariant
            i <= a.len(),
            a.len() == b.len(),
            a@.take(i as int) == b@.take(i as int),
        decreases a.len() - i,
    {
        if a[i] != b[i] {
            assert(a@[i as int] != b@[i as int]);
            return false;
        }
        assert(a@.take(i as int + 1) =~= a@.take(i as int).push(a@[i as int]));
        assert(b@.take(i as int + 1) =~= b@.take(i as int).push(b@[i as int]));
        i += 1;
    }
    assert(a@.take(a@.len() as int) =~= a@);
    assert(b@.take(b@.len() as int) =~= b@);
    true
}

/// Whether two strings hold the same characters.
pub fn same(a: &str, b: &str) -> (r: bool)
    ensures
        r == (a@ == b@),
{
    let x = chars_of(a);
    let y = chars_of(b);
    same_chars(x.as_slice(), y.as_slice())
}

/// Whether a text is among these.
pub fn has_text_in(all: &Vec<String>, wanted: &str) -> (r: bool)
    ensures
        r == texts(all@).contains(wanted@),
{
    let ghost ts = texts(all@);
    let mut i: usize = 0;
    while i < all.len()
        invariant
            i <= all@.len(),
            ts == texts(all@),
            forall|j: int| 0 <= j < i ==> #[trigger] ts[j] != wanted@,
        decreases all@.len() - i,
    {
        assert(ts[i as int] == all@[i as int]@);
        if same(all[i].as_str(), wanted) {
            return true;
        }
        i += 1;
    }
    false
}

/// Whether two pieces of text are the same but for the case of ASCII letters.
pub fn same_chars_ignoring_case(a: &[char], b: &[char]) -> (r: bool)
    ensures
        r == same_ignoring_case(a@, b@),
{
    if a.len() != b.len() {
        assert(lower_all(a@).len() != lower_all(b@).len());
        return false;
    }
    let mut i: usize = 0;
    while i < a.len()
        invariant
            i <= a.len(),
            a.len() == b.len(),
            forall|j: int| 0 <= j < i ==> ascii_lower(#[trigger] a@[j]) == ascii_lower(b@[j]),
        decreases a.len() - i,
    {
        if to_ascii_lower(a[i]) != to_ascii_lower(b[i]) {
            assert(lower_all(a@)[i as int] != lower_all(b@)[i as int]);
            return false;
        }
        i += 1;
    }
    assert(lower_all(a@) =~= lower_all(b@));
    true
}

/// Whether two strings are the same but for the case of ASCII letters.
pub fn eq_ignore_case(a: &str, b: &str) -> (r: bool)
    ensures
        r == same_ignoring_case(a@, b@),
{
    let x = chars_of(a);
    let y = chars_of(b);
    same_chars_ignoring_case(x.as_slice(), y.as_slice())
}

/// `s` with every ASCII letter in upper case.
pub fn uppered(s: &[char]) -> (r: Vec<char>)
    ensures
        r@ == upper_all(s@),
{
    let mut out: Vec<char> = Vec::new();
    let mut i: usize = 0;
    while i < s.len()
        invariant
            i <= s.len(),
            out@ == upper_all(s@).take(i as int),
        decreases s.len() - i,
    {
        out.push(to_ascii_upper(s[i]));
        assert(upper_all(s@).take(i as int + 1) =~= upper_all(s@).take(i as int).push(
            ascii_upper(s@[i as int]),
        ));
        i += 1;
    }
    assert(upper_all(s@).take(s@.len() as int) =~= upper_all(s@));
    out
}

// ---------------------------------------------------------------------------
// Trimming
// ---------------------------------------------------------------------------

/// `s` without its leading white space.
pub open spec fn trimmed_start(s: Seq<char>) -> Seq<char>
    decreases s.len(),
{
    if s.len() > 0 && white_space(s[0]) {
        trimmed_start(s.skip(1))
    } else {
        s
    }
}

/// `s` without its trailing white space.
pub open spec fn trimmed_end(s: Seq<char>) -> Seq<char>
    decreases s.len(),
{
    if s.len() > 0 && white_space(s.last()) {
        trimmed_end(s.drop_last())
    } else {
        s
    }
}

/// `s` without leading and trailing white space.
pub open spec fn trimmed(s: Seq<char>) -> Seq<char> {
    trimmed_end(trimmed_start(s))
}

pub fn trim_start(s: &[char]) -> (r: &[char])
    ensures
        r@ == trimmed_start(s@),
{
    let mut i: usize = 0;
    assert(s@.skip(0) =~= s@);
    while i < s.len() && is_white_space(s[i])
        invariant
            i <= s.len(),
            trimmed_start(s@) == trimmed_start(s@.skip(i as int)),
        decreases s.len() - i,
    {
        assert(s@.skip(i as int).skip(1) =~= s@.skip(i as int + 1));
        i += 1;
    }
    slice_subrange(s, i, s.len())
}

pub fn trim_end(s: &[char]) -> (r: &[char])
    ensures
        r@ == trimmed_end(s@),
{
    let mut n: usize = s.len();
    assert(s@.take(n as int) =~= s@);
    while n > 0 && is_white_space(s[n - 1])
        invariant
            n <= s.len(),
            trimmed_end(s@) == trimmed_end(s@.take(n as int)),
        decreases n,
    {
        assert(s@.take(n as int).drop_last() =~= s@.take(n as int - 1));
        n -= 1;
    }
    slice_subrange(s, 0, n)
}

/// `s` without leading and trailing white space.
pub fn trim(s: &[char]) -> (r: &[char])
    ensures
        r@ == trimmed(s@),
{
    trim_end(trim_start(s))
}

/// The string `s` without leading and trailing white space.
pub fn trim_str(s: &str) -> (r: String)
    ensures
        r@ == trimmed(s@),
{
    let cs = chars_of(s);
    string_of(trim(cs.as_slice()))
}

/// Whether nothing is left of `s` once it is trimmed.
pub fn is_blank(s: &str) -> (r: bool)
    ensures
        r == (trimmed(s@).len() == 0),
{
    let cs = chars_of(s);
    trim(cs.as_slice()).len() == 0
}

/// `s` without its leading and trailing characters `c`.
pub open spec fn stripped_end(s: Seq<char>, c: char) -> Seq<char>
    decreases s.len(),
{
    if s.len() > 0 && s.last() == c {
        stripped_end(s.drop_last(), c)
    } else {
        s
    }
}

/// `s` without its trailing characters `c`.
pub fn strip_end(s: &[char], c: char) -> (r: &[char])
    ensures
        r@ == stripped_end(s@, c),
{
    let mut n: usize = s.len();
    assert(s@.take(n as int) =~= s@);
    while n > 0 && s[n - 1] == c
        invariant
            n <= s.len(),
            stripped_end(s@, c) == stripped_end(s@.take(n as int), c),
        decreases n,
    {
        assert(s@.take(n as int).drop_last() =~= s@.take(n as int - 1));
        n -= 1;
    }
    slice_subrange(s, 0, n)
}

// ---------------------------------------------------------------------------
// Searching
// ---------------------------------------------------------------------------

/// `part` stands in `s` at position `i`.
pub open spec fn occurs_at(s: Seq<char>, part: Seq<char>, i: int) -> bool {
    &&& 0 <= i <= s.len() - part.len()
    &&& s.subrange(i, i + part.len()) == part
}

/// `part` stands somewhere in `s`.
pub open spec fn has_text(s: Seq<char>, part: Seq<char>) -> bool {
    exists|i: int| #[trigger] occurs_at(s, part, i)
}

/// `i` is the first place, from `from` on, at which `part` stands in `s`.
pub open spec fn first_at(s: Seq<char>, part: Seq<char>, from: int, i: int) -> bool {
    &&& from <= i
    &&& occurs_at(s, part, i)
    &&& forall|j: int| from <= j < i ==> !#[trigger] occurs_at(s, part, j)
}

/// `i` is the last place at which `part` stands in `s`.
pub open spec fn last_at(s: Seq<char>, part: Seq<char>, i: int) -> bool {
    &&& occurs_at(s, part, i)
    &&& forall|j: int| i < j ==> !#[trigger] occurs_at(s, part, j)
}

fn is_at(s: &[char], part: &[char], i: usize) -> (r: bool)
    requires
        i <= s.len(),
    ensures
        r == occurs_at(s@, part@, i as int),
{
    if part.len() > s.len() - i {
        return false;
    }
    same_chars(slice_subrange(s, i, i + part.len()), part)
}

/// The first place, from `from` on, at which `part` stands in `s`.
pub fn find_from(s: &[char], part: &[char], from: usize) -> (r: Option<usize>)
    requires
        from <= s.len(),
    ensures
        match r {
            Some(i) => first_at(s@, part@, from as int, i as int),
            None => forall|j: int| from <= j ==> !#[trigger] occurs_at(s@, part@, j),
        },
{
    let mut i: usize = from;
    loop
        invariant
            from <= i <= s.len(),
            forall|j: int| from <= j < i ==> !#[trigger] occurs_at(s@, part@, j),
        decreases s.len() - i,
    {
        if is_at(s, part, i) {
            return Some(i);
        }
        if i == s.len() {
            return None;
        }
        i += 1;
    }
}

/// The last place at which `part` stands in `s`.
pub fn rfind(s: &[char], part: &[char]) -> (r: Option<usize>)
    ensures
        match r {
            Some(i) => last_at(s@, part@, i as int),
            None => !has_text(s@, part@),
        },
{
    let mut i: usize = s.len();
    loop
        invariant
            i <= s.len(),
            forall|j: int| i < j ==> !#[trigger] occurs_at(s@, part@, j),
        decreases i,
    {
        if is_at(s, part, i) {
            return Some(i);
        }
        if i == 0 {
            return None;
        }
        i -= 1;
    }
}

/// Whether `part` stands somewhere in `s`.
pub fn contains(s: &[char], part: &[char]) -> (r: bool)
    ensures
        r == has_text(s@, part@),
{
    match find_from(s, part, 0) {
        Some(i) => {
            assert(occurs_at(s@, part@, i as int));
            true
        },
        None => false,
    }
}

/// Whether the string `part` stands somewhere in `s`.
pub fn contains_str(s: &[char], part: &str) -> (r: bool)
    ensures
        r == has_text(s@, part@),
{
    let p = chars_of(part);
    contains(s, p.as_slice())
}

/// Whether the character `c` stands in `s`.
pub fn contains_char(s: &[char], c: char) -> (r: bool)
    ensures
        r == s@.contains(c),
{
    let mut i: usize = 0;
    while i < s.len()
        invariant
            i <= s.len(),
            forall|j: int| 0 <= j < i ==> s@[j] != c,
        decreases s.len() - i,
    {
        if s[i] == c {
            assert(s@[i as int] == c);
            return true;
        }
        i += 1;
    }
    false
}

/// Whether `s` begins with `prefix`.
pub fn starts_with(s: &[char], prefix: &[char]) -> (r: bool)
    ensures
        r == prefix@.is_prefix_of(s@),
{
    if prefix.len() > s.len() {
        return false;
    }
    same_chars(slice_subrange(s, 0, prefix.len()), prefix)
}

/// Whether `s` begins with the string `prefix`.
pub fn starts_with_str(s: &[char], prefix: &str) -> (r: bool)
    ensures
        r == prefix@.is_prefix_of(s@),
{
    let p = chars_of(prefix);
    starts_with(s, p.as_slice())
}

/// What follows `prefix` in `s`, when `s` begins with it.
pub open spec fn after_prefix(s: Seq<char>, prefix: Seq<char>) -> Option<Seq<char>> {
    if prefix.is_prefix_of(s) {
        Some(s.skip(prefix.len() as int))
    } else {
        None
    }
}

/// The contents of an optional piece of text.
pub open spec fn opt_piece(o: Option<&[char]>) -> Option<Seq<char>> {
    match o {
        Some(s) => Some(s@),
        None => None,
    }
}

pub fn strip_prefix<'a>(s: &'a [char], prefix: &str) -> (r: Option<&'a [char]>)
    ensures
        opt_piece(r) == after_prefix(s@, prefix@),
{
    let p = chars_of(prefix);
    if starts_with(s, p.as_slice()) {
        Some(slice_subrange(s, p.len(), s.len()))
    } else {
        None
    }
}

// ---------------------------------------------------------------------------
// Splitting
// ---------------------------------------------------------------------------

/// The parts of `s` between the separators `sep`; always at least one.
pub open spec fn split_on(s: Seq<char>, sep: char) -> Seq<Seq<char>>
    decreases s.len(),
{
    if s.len() == 0 {
        seq![Seq::empty()]
    } else {
        let front = split_on(s.drop_last(), sep);
        if s.last() == sep {
            front.push(Seq::empty())
        } else {
            front.drop_last().push(front.last().push(s.last()))
        }
    }
}

pub proof fn lemma_split_on_nonempty(s: Seq<char>, sep: char)
    ensures
        split_on(s, sep).len() > 0,
    decreases s.len(),
{
    if s.len() > 0 {
        lemma_split_on_nonempty(s.drop_last(), sep);
    }
}

/// Splits `s` at every `sep`.
pub fn split_char(s: &[char], sep: char) -> (r: Vec<&[char]>)
    ensures
        pieces(r@) == split_on(s@, sep),
        r@.len() > 0,
{
    let mut out: Vec<&[char]> = Vec::new();
    let mut start: usize = 0;
    let mut i: usize = 0;
    assert(s@.take(0) =~= Seq::<char>::empty());
    assert(s@.subrange(0, 0) =~= Seq::<char>::empty());
    assert(pieces(out@).push(s@.subrange(0, 0)) =~= split_on(s@.take(0), sep));
    while i < s.len()
        invariant
            start <= i <= s.len(),
            pieces(out@).push(s@.subrange(start as int, i as int)) == split_on(
                s@.take(i as int),
                sep,
            ),
        decreases s.len() - i,
    {
        let ghost before = split_on(s@.take(i as int), sep);
        let ghost here = s@.subrange(start as int, i as int);
        assert(s@.take(i as int + 1).drop_last() =~= s@.take(i as int));
        assert(s@.take(i as int + 1).last() == s@[i as int]);
        assert(before.last() == here);
        assert(before.drop_last() =~= pieces(out@));
        if s[i] == sep {
            let ghost old_out = out@;
            out.push(slice_subrange(s, start, i));
            assert(pieces(out@) =~= pieces(old_out).push(here));
            start = i + 1;
            assert(s@.subrange(i as int + 1, i as int + 1) =~= Seq::<char>::empty());
        } else {
            assert(s@.subrange(start as int, i as int + 1) =~= here.push(s@[i as int]));
        }
        i += 1;
    }
    let ghost old_out = out@;
    out.push(slice_subrange(s, start, s.len()));
    assert(pieces(out@) =~= pieces(old_out).push(s@.subrange(start as int, s@.len() as int)));
    assert(s@.take(s@.len() as int) =~= s@);
    out
}

/// The maximal runs of `s` without white space.
pub open spec fn words_of(s: Seq<char>) -> Seq<Seq<char>>
    decreases s.len(),
{
    if s.len() == 0 {
        Seq::empty()
    } else {
        let front = words_of(s.drop_last());
        if white_space(s.last()) {
            front
        } else if s.len() == 1 || white_space(s[s.len() - 2]) {
            front.push(seq![s.last()])
        } else {
            front.drop_last().push(front.last().push(s.last()))
        }
    }
}

/// The runs of `s` between white space.
pub fn words(s: &[char]) -> (r: Vec<&[char]>)
    ensures
        pieces(r@) == words_of(s@),
{
    let mut out: Vec<&[char]> = Vec::new();
    let mut start: usize = 0;
    let mut i: usize = 0;
    assert(s@.take(0) =~= Seq::<char>::empty());
    assert(pieces(out@) =~= words_of(s@.take(0)));
    while i < s.len()
        invariant
            start <= i <= s.len(),
            forall|j: int| start <= j < i ==> !white_space(#[trigger] s@[j]),
            start == 0 || white_space(s@[start - 1]),
            words_of(s@.take(i as int)) == if start < i {
                pieces(out@).push(s@.subrange(start as int, i as int))
            } else {
                pieces(out@)
            },
        decreases s.len() - i,
    {
        let ghost here = s@.subrange(start as int, i as int);
        let ghost next = s@.take(i as int + 1);
        assert(next.drop_last() =~= s@.take(i as int));
        assert(next.last() == s@[i as int]);
        if i > 0 {
            assert(next[next.len() - 2] == s@[i - 1]);
        }
        if is_white_space(s[i]) {
            let ghost old_out = out@;
            if start < i {
                out.push(slice_subrange(s, start, i));
                assert(pieces(out@) =~= pieces(old_out).push(here));
            }
            start = i + 1;
        } else if start < i {
            assert(pieces(out@).push(here).drop_last() =~= pieces(out@));
            assert(s@.subrange(start as int, i as int + 1) =~= here.push(s@[i as int]));
        } else {
            assert(s@.subrange(start as int, i as int + 1) =~= seq![s@[i as int]]);
        }
        i += 1;
    }
    assert(s@.take(s@.len() as int) =~= s@);
    if start < s.len() {
        let ghost old_out = out@;
        out.push(slice_subrange(s, start, s.len()));
        assert(pieces(out@) =~= pieces(old_out).push(
            s@.subrange(start as int, s@.len() as int),
        ));
    }
    out
}

/// `s` without one trailing carriage return.
pub open spec fn without_return(s: Seq<char>) -> Seq<char> {
    if s.len() > 0 && s.last() == '\r' {
        s.drop_last()
    } else {
        s
    }
}

/// The lines of `s`: each ends at a line feed, which may follow a carriage
/// return, and the line ending of the last one is optional.
pub open spec fn lines_of(s: Seq<char>) -> Seq<Seq<char>> {
    let parts = split_on(s, '\n');
    let ended = parts.drop_last().map_values(|l: Seq<char>| without_return(l));
    if parts.last().len() == 0 {
        ended
    } else {
        ended.push(parts.last())
    }
}

/// Splits `s` into lines.
pub fn lines(s: &[char]) -> (r: Vec<&[char]>)
    ensures
        pieces(r@) == lines_of(s@),
{
    let parts = split_char(s, '\n');
    let n: usize = parts.len();
    let ghost want = split_on(s@, '\n').drop_last().map_values(|l: Seq<char>| without_return(l));
    let mut out: Vec<&[char]> = Vec::new();
    let mut i: usize = 0;
    while i < n - 1
        invariant
            n == parts.len(),
            0 < n,
            i <= n - 1,
            pieces(parts@) == split_on(s@, '\n'),
            want == split_on(s@, '\n').drop_last().map_values(|l: Seq<char>| without_return(l)),
            pieces(out@) == want.take(i as int),
        decreases n - i,
    {
        let part: &[char] = parts[i];
        let len: usize = part.len();
        let ghost old_out = out@;
        assert(part@ == split_on(s@, '\n')[i as int]);
        if len > 0 && part[len - 1] == '\r' {
            let line = slice_subrange(part, 0, len - 1);
            assert(line@ =~= without_return(part@));
            out.push(line);
        } else {
            out.push(part);
        }
        assert(pieces(out@) =~= pieces(old_out).push(without_return(part@)));
        assert(want.take(i as int + 1) =~= want.take(i as int).push(want[i as int]));
        i += 1;
    }
    assert(want.take(n - 1) =~= want);
    let last: &[char] = parts[n - 1];
    assert(last@ == split_on(s@, '\n').last());
    if last.len() > 0 {
        let ghost old_out = out@;
        out.push(last);
        assert(pieces(out@) =~= pieces(old_out).push(last@));
    }
    out
}

// ---------------------------------------------------------------------------
// Putting together
// ---------------------------------------------------------------------------

/// The parts one after the other, with `sep` between them.
pub open spec fn joined(parts: Seq<Seq<char>>, sep: Seq<char>) -> Seq<char>
    decreases parts.len(),
{
    if parts.len() == 0 {
        Seq::empty()
    } else if parts.len() == 1 {
        parts[0]
    } else {
        joined(parts.drop_last(), sep) + sep + parts.last()
    }
}

/// Joins strings with `sep` between them.
pub fn join(parts: &[String], sep: &str) -> (r: String)
    ensures
        r@ == joined(texts(parts@), sep@),
{
    let mut out = String::new();
    let mut i: usize = 0;
    assert(texts(parts@).take(0) =~= Seq::<Seq<char>>::empty());
    while i < parts.len()
        invariant
            i <= parts.len(),
            out@ == joined(texts(parts@).take(i as int), sep@),
        decreases parts.len() - i,
    {
        if i > 0 {
            out.append(sep);
        }
        out.append(parts[i].as_str());
        let ghost next = texts(parts@).take(i as int + 1);
        assert(next.drop_last() =~= texts(parts@).take(i as int));
        assert(next.last() == parts@[i as int]@);
        if i == 0 {
            assert(out@ =~= parts@[0]@);
        }
        i += 1;
    }
    assert(texts(parts@).take(parts@.len() as int) =~= texts(parts@));
    out
}

/// `s` with every `c` replaced by `with`.
pub open spec fn replaced(s: Seq<char>, c: char, with: Seq<char>) -> Seq<char>
    decreases s.len(),
{
    if s.len() == 0 {
        Seq::empty()
    } else if s.last() == c {
        replaced(s.drop_last(), c, with) + with
    } else {
        replaced(s.drop_last(), c, with).push(s.last())
    }
}

/// `s` with every `c` replaced by `with`.
pub fn replace(s: &str, c: char, with: &str) -> (r: String)
    ensures
        r@ == replaced(s@, c, with@),
{
    let cs = chars_of(s);
    let mut out = String::new();
    let mut i: usize = 0;
    assert(s@.take(0) =~= Seq::<char>::empty());
    while i < cs.len()
        invariant
            cs@ == s@,
            i <= cs.len(),
            out@ == replaced(s@.take(i as int), c, with@),
        decreases cs.len() - i,
    {
        let ghost next = s@.take(i as int + 1);
        assert(next.drop_last() =~= s@.take(i as int));
        assert(next.last() == s@[i as int]);
        if cs[i] == c {
            out.append(with);
        } else {
            out.push(cs[i]);
        }
        i += 1;
    }
    assert(s@.take(s@.len() as int) =~= s@);
    out
}

/// `c`, `n` times.
pub open spec fn repeated(c: char, n: nat) -> Seq<char> {
    Seq::new(n, |i: int| c)
}

/// `c`, `n` times.
pub fn repeat(c: char, n: usize) -> (r: String)
    ensures
        r@ == repeated(c, n as nat),
{
    let mut out = String::new();
    let mut i: usize = 0;
    assert(out@ =~= repeated(c, 0));
    while i < n
        invariant
            i <= n,
            out@ == repeated(c, i as nat),
        decreases n - i,
    {
        out.push(c);
        assert(repeated(c, (i + 1) as nat) =~= repeated(c, i as nat).push(c));
        i += 1;
    }
    out
}

/// `s` followed by as many spaces as it takes to be `width` characters long.
pub open spec fn padded(s: Seq<char>, width: nat) -> Seq<char> {
    if s.len() < width {
        s + repeated(' ', (width - s.len()) as nat)
    } else {
        s
    }
}

/// `s`, filled up with spaces on the right.
pub fn pad(s: &str, width: usize) -> (r: String)
    ensures
        r@ == padded(s@, width as nat),
{
    let n: usize = s.unicode_len();
    if n < width {
        cat2(s, repeat(' ', width - n).as_str())
    } else {
        s.to_owned()
    }
}

/// The first `n` characters of `s`, or all of it where it is shorter.
pub open spec fn first_chars(s: Seq<char>, n: nat) -> Seq<char> {
    if s.len() <= n {
        s
    } else {
        s.take(n as int)
    }
}

pub fn take_chars(s: &str, n: usize) -> (r: String)
    ensures
        r@ == first_chars(s@, n as nat),
{
    if s.unicode_len() <= n {
        s.to_owned()
    } else {
        s.substring_char(0, n).to_owned()
    }
}

// ---------------------------------------------------------------------------
// Unicode case
// ---------------------------------------------------------------------------

/// What `str::to_lowercase` makes of a text.
pub uninterp spec fn lowercase(s: Seq<char>) -> Seq<char>;

/// What `str::to_uppercase` makes of a text.
pub uninterp spec fn uppercase(s: Seq<char>) -> Seq<char>;

/// `str::to_lowercase` depends on the text alone; on ASCII text it changes the
/// letters as `to_ascii_lowercase` does.
pub assume_specification[ str::to_lowercase ](s: &str) -> (r: String)
    ensures
        r@ == lowercase(s@),
        vstd::utf8::is_ascii_chars(s@) ==> r@ == lower_all(s@),
;

/// `str::to_uppercase` depends on the text alone; on ASCII text it changes the
/// letters as `to_ascii_uppercase` does.
pub assume_specification[ str::to_uppercase ](s: &str) -> (r: String)
    ensures
        r@ == uppercase(s@),
        vstd::utf8::is_ascii_chars(s@) ==> r@ == upper_all(s@),
;

// ---------------------------------------------------------------------------
// Quoting
// ---------------------------------------------------------------------------

/// What formatting a text with `{:?}` gives: the text in double quotes, with
/// its quotes, backslashes and control characters escaped.
pub uninterp spec fn quoted_text(v: Seq<char>) -> Seq<char>;

/// Formats a text with `{:?}`, which depends on the text alone.
#[verifier::external_body]
pub(crate) fn quote(v: &str) -> (r: String)
    ensures
        r@ == quoted_text(v@),
{
    format!("{:?}", v)
}

// ---------------------------------------------------------------------------
// Cutting in two
// ---------------------------------------------------------------------------

/// Holds of one character.
pub open spec fn is_char(c: char) -> spec_fn(char) -> bool {
    |x: char| x == c
}

/// What stands before and behind the first `c` in `s`.
pub open spec fn cut_at(s: Seq<char>, c: char) -> Option<(Seq<char>, Seq<char>)> {
    match first_index(s, is_char(c)) {
        Some(i) => Some((s.take(i), s.skip(i + 1))),
        None => None,
    }
}

pub open spec fn two_pieces(o: Option<(&[char], &[char])>) -> Option<(Seq<char>, Seq<char>)> {
    match o {
        Some((a, b)) => Some((a@, b@)),
        None => None,
    }
}

/// What stands before and behind the first `c` in `s`.
pub fn cut(s: &[char], c: char) -> (r: Option<(&[char], &[char])>)
    ensures
        two_pieces(r) == cut_at(s@, c),
{
    let mut i: usize = 0;
    while i < s.len()
        invariant
            i <= s.len(),
            forall|j: int| 0 <= j < i ==> !is_char(c)(#[trigger] s@[j]),
        decreases s.len() - i,
    {
        if s[i] == c {
            proof {
                lemma_first_index_here(s@, is_char(c), i as int);
            }
            let before = slice_subrange(s, 0, i);
            let behind = slice_subrange(s, i + 1, s.len());
            assert(before@ =~= s@.take(i as int));
            assert(behind@ =~= s@.skip(i as int + 1));
            return Some((before, behind));
        }
        i += 1;
    }
    proof {
        lemma_first_index_none(s@, is_char(c));
    }
    None
}

// ---------------------------------------------------------------------------
// Lines that say something
// ---------------------------------------------------------------------------

/// A line that says something.
pub open spec fn not_blank() -> spec_fn(Seq<char>) -> bool {
    |line: Seq<char>| trimmed(line).len() > 0
}

/// The lines of a text that are not blank.
pub open spec fn said_lines(s: Seq<char>) -> Seq<Seq<char>> {
    lines_of(s).filter(not_blank())
}

/// The lines of a text that are not blank.
pub fn said(s: &[char]) -> (r: Vec<&[char]>)
    ensures
        pieces(r@) == said_lines(s@),
{
    let all = lines(s);
    let ghost ls = lines_of(s@);
    let ghost p = not_blank();
    let mut kept: Vec<&[char]> = Vec::new();
    let mut i: usize = 0;
    proof {
        lemma_filter_take_none(ls, p);
        assert(pieces(kept@) =~= ls.take(0).filter(p));
    }
    while i < all.len()
        invariant
            i <= all.len(),
            ls == pieces(all@),
            p == not_blank(),
            pieces(kept@) == ls.take(i as int).filter(p),
        decreases all.len() - i,
    {
        proof {
            lemma_filter_take(ls, p, i as int);
            assert(ls[i as int] == all[i as int]@);
        }
        if trim(all[i]).len() > 0 {
            let ghost before = kept@;
            kept.push(all[i]);
            assert(pieces(kept@) =~= pieces(before).push(ls[i as int]));
        }
        i += 1;
    }
    proof {
        lemma_filter_take_none(ls, p);
    }
    kept
}

/// The last place of a character.
pub open spec fn last_place(s: Seq<char>, c: char) -> Option<int>
    decreases s.len(),
{
    if s.len() == 0 {
        None
    } else if s.last() == c {
        Some(s.len() - 1)
    } else {
        last_place(s.drop_last(), c)
    }
}

/// The last place of a character.
pub fn rfind_char(s: &[char], c: char) -> (r: Option<usize>)
    ensures
        match r {
            Some(i) => last_place(s@, c) == Some(i as int) && i < s@.len(),
            None => last_place(s@, c) is None,
        },
{
    let mut i: usize = s.len();
    assert(s@.take(i as int) =~= s@);
    while i > 0
        invariant
            i <= s@.len(),
            last_place(s@, c) == last_place(s@.take(i as int), c),
        decreases i,
    {
        assert(s@.take(i as int).drop_last() =~= s@.take(i as int - 1));
        if s[i - 1] == c {
            return Some(i - 1);
        }
        i -= 1;
    }
    None
}

// ---------------------------------------------------------------------------
// What comparing and cutting promise
// ---------------------------------------------------------------------------

/// The same character, or the same ASCII letter in the other case.
pub open spec fn same_letter(a: char, b: char) -> bool {
    ||| a == b
    ||| 'A' <= a <= 'Z' && b as int == a as int + 32
    ||| 'A' <= b <= 'Z' && a as int == b as int + 32
}

/// Two texts of one length that are the same letter by letter.
pub open spec fn spelled_alike(a: Seq<char>, b: Seq<char>) -> bool {
    a.len() == b.len() && forall|i: int| 0 <= i < a.len() ==> same_letter(#[trigger] a[i], b[i])
}

/// A comparison that ignores case passes over nothing but the case of ASCII
/// letters: the texts are as long as each other and the same letter by letter.
pub proof fn law_nothing_but_case_is_ignored(a: Seq<char>, b: Seq<char>)
    ensures
        same_ignoring_case(a, b) <==> spelled_alike(a, b),
{
    if same_ignoring_case(a, b) {
        assert(lower_all(a).len() == a.len() && lower_all(b).len() == b.len());
        assert forall|i: int| 0 <= i < a.len() implies same_letter(#[trigger] a[i], b[i]) by {
            assert(lower_all(a)[i] == lower_all(b)[i]);
            lemma_lower_letter(a[i], b[i]);
        }
    }
    if spelled_alike(a, b) {
        assert forall|i: int| 0 <= i < a.len() implies lower_all(a)[i] == lower_all(b)[i] by {
            assert(same_letter(a[i], b[i]));
            lemma_lower_letter(a[i], b[i]);
        }
        assert(lower_all(a) =~= lower_all(b));
    }
}

proof fn lemma_lower_letter(a: char, b: char)
    ensures
        ascii_lower(a) == ascii_lower(b) <==> same_letter(a, b),
{
    assert(ascii_upper_letter(a) ==> ascii_lower(a) as int == a as int + 32);
    assert(ascii_upper_letter(b) ==> ascii_lower(b) as int == b as int + 32);
}

/// Upper case and lower case tell the same texts apart.
pub proof fn law_either_case_will_do(a: Seq<char>, b: Seq<char>)
    ensures
        upper_all(a) == upper_all(b) <==> spelled_alike(a, b),
{
    if upper_all(a) == upper_all(b) {
        assert(upper_all(a).len() == a.len() && upper_all(b).len() == b.len());
        assert forall|i: int| 0 <= i < a.len() implies same_letter(#[trigger] a[i], b[i]) by {
            assert(upper_all(a)[i] == upper_all(b)[i]);
            lemma_upper_letter(a[i], b[i]);
        }
    }
    if spelled_alike(a, b) {
        assert forall|i: int| 0 <= i < a.len() implies upper_all(a)[i] == upper_all(b)[i] by {
            assert(same_letter(a[i], b[i]));
            lemma_upper_letter(a[i], b[i]);
        }
        assert(upper_all(a) =~= upper_all(b));
    }
}

pub proof fn lemma_upper_letter(a: char, b: char)
    ensures
        ascii_upper(a) == ascii_upper(b) <==> same_letter(a, b),
{
    assert(ascii_lower_letter(a) ==> ascii_upper(a) as int == a as int - 32);
    assert(ascii_lower_letter(b) ==> ascii_upper(b) as int == b as int - 32);
}

/// Among ASCII characters, white space is the space and the five from the tab
/// to the carriage return; no letter, digit or sign is.
pub proof fn law_signs_are_no_white_space(c: char)
    requires
        c as int <= 0x7F,
    ensures
        white_space(c) <==> c as int == 0x20 || 0x09 <= c as int <= 0x0D,
{
}

/// Only white space is left out, at the ends alone, and all of it there.
pub open spec fn cut_out(s: Seq<char>, from: int, to: int) -> bool {
    &&& 0 <= from <= to <= s.len()
    &&& forall|k: int| 0 <= k < from ==> white_space(#[trigger] s[k])
    &&& forall|k: int| to <= k < s.len() ==> white_space(#[trigger] s[k])
    &&& from < to ==> !white_space(s[from]) && !white_space(s[to - 1])
}

/// Trimming takes white space from both ends, all of it, and nothing else.
pub proof fn law_trimming_leaves_the_text(s: Seq<char>) -> (ends: (int, int))
    ensures
        cut_out(s, ends.0, ends.1),
        trimmed(s) == s.subrange(ends.0, ends.1),
{
    let from = lemma_trimmed_start(s);
    let rest = s.skip(from);
    let n = lemma_trimmed_end(rest);
    assert forall|k: int| from + n <= k < s.len() implies white_space(#[trigger] s[k]) by {
        assert(rest[k - from] == s[k]);
    }
    if n > 0 {
        assert(rest[0] == s[from] && rest[n - 1] == s[from + n - 1]);
    }
    assert(rest.take(n) =~= s.subrange(from, from + n));
    (from, from + n)
}

/// There is one way to trim a text.
pub proof fn law_a_text_is_trimmed_one_way(s: Seq<char>, from: int, to: int)
    requires
        cut_out(s, from, to),
    ensures
        trimmed(s) == s.subrange(from, to),
{
    let (a, b) = law_trimming_leaves_the_text(s);
    if from < to {
        assert(!white_space(s[from]) && !white_space(s[to - 1]));
    }
    if a < b {
        assert(!white_space(s[a]) && !white_space(s[b - 1]));
    }
    if from < to && a < b {
        assert(a == from && b == to);
    } else if from < to {
        assert(white_space(s[from]));
    } else if a < b {
        assert(white_space(s[a]));
    }
    assert(s.subrange(a, b) =~= s.subrange(from, to));
}

proof fn lemma_trimmed_start(s: Seq<char>) -> (n: int)
    ensures
        0 <= n <= s.len(),
        trimmed_start(s) == s.skip(n),
        forall|k: int| 0 <= k < n ==> white_space(#[trigger] s[k]),
        n < s.len() ==> !white_space(s[n]),
    decreases s.len(),
{
    if s.len() > 0 && white_space(s[0]) {
        let n = lemma_trimmed_start(s.skip(1));
        assert(s.skip(1).skip(n) =~= s.skip(n + 1));
        assert forall|k: int| 0 <= k < n + 1 implies white_space(#[trigger] s[k]) by {
            if k > 0 {
                assert(s.skip(1)[k - 1] == s[k]);
            }
        }
        if n + 1 < s.len() {
            assert(s.skip(1)[n] == s[n + 1]);
        }
        n + 1
    } else {
        assert(s.skip(0) =~= s);
        0
    }
}

proof fn lemma_trimmed_end(s: Seq<char>) -> (n: int)
    ensures
        0 <= n <= s.len(),
        trimmed_end(s) == s.take(n),
        forall|k: int| n <= k < s.len() ==> white_space(#[trigger] s[k]),
        n > 0 ==> !white_space(s[n - 1]),
    decreases s.len(),
{
    if s.len() > 0 && white_space(s.last()) {
        let n = lemma_trimmed_end(s.drop_last());
        assert(s.drop_last().take(n) =~= s.take(n));
        assert forall|k: int| n <= k < s.len() implies white_space(#[trigger] s[k]) by {
            if k < s.len() - 1 {
                assert(s.drop_last()[k] == s[k]);
            }
        }
        if n > 0 {
            assert(s.drop_last()[n - 1] == s[n - 1]);
        }
        n
    } else {
        assert(s.take(s.len() as int) =~= s);
        s.len() as int
    }
}

/// A text is the name that was typed, whatever its case and the white space
/// around what was typed.
pub open spec fn is_typed(text: Seq<char>, typed: Seq<char>) -> bool {
    exists|from: int, to: int|
        #[trigger] cut_out(typed, from, to) && spelled_alike(text, typed.subrange(from, to))
}

/// A name that was typed is compared with all of a text, not with a part of
/// it.
pub proof fn law_a_typed_name_is_the_whole_text(text: Seq<char>, typed: Seq<char>)
    ensures
        same_ignoring_case(text, trimmed(typed)) <==> is_typed(text, typed),
{
    let (from, to) = law_trimming_leaves_the_text(typed);
    law_nothing_but_case_is_ignored(text, trimmed(typed));
    if same_ignoring_case(text, trimmed(typed)) {
        assert(cut_out(typed, from, to));
    }
    if is_typed(text, typed) {
        let (a, b) = choose|a: int, b: int| #[trigger]
            cut_out(typed, a, b) && spelled_alike(text, typed.subrange(a, b));
        law_a_text_is_trimmed_one_way(typed, a, b);
    }
}

/// Nothing is left of a text exactly where it is all white space.
pub proof fn law_a_blank_text_is_all_white_space(s: Seq<char>)
    ensures
        trimmed(s).len() == 0 <==> forall|i: int| 0 <= i < s.len() ==> white_space(#[trigger] s[i]),
{
    let (from, to) = law_trimming_leaves_the_text(s);
    if from < to {
        assert(!white_space(s[from]));
    }
}

/// What stands between two texts is found in the whole.
pub proof fn lemma_has_text_between(before: Seq<char>, part: Seq<char>, after: Seq<char>)
    ensures
        has_text(before + part + after, part),
        has_text(before + part, part),
        has_text(part + after, part),
{
    let all = before + part + after;
    let n = before.len() as int;
    assert(all.subrange(n, n + part.len()) =~= part);
    assert(occurs_at(all, part, n));
    assert((before + part).subrange(n, n + part.len()) =~= part);
    assert(occurs_at(before + part, part, n));
    assert((part + after).subrange(0, part.len() as int) =~= part);
    assert(occurs_at(part + after, part, 0));
}

/// What is found in a part is found in the whole.
pub proof fn lemma_has_text_within(
    before: Seq<char>,
    part: Seq<char>,
    after: Seq<char>,
    found: Seq<char>,
)
    requires
        has_text(part, found),
    ensures
        has_text(before + part + after, found),
        has_text(before + part, found),
        has_text(part + after, found),
{
    let i = choose|i: int| #[trigger] occurs_at(part, found, i);
    let n = before.len() as int;
    let all = before + part + after;
    assert(all.subrange(n + i, n + i + found.len()) =~= part.subrange(i, i + found.len()));
    assert(occurs_at(all, found, n + i));
    assert((before + part).subrange(n + i, n + i + found.len()) =~= part.subrange(
        i,
        i + found.len(),
    ));
    assert(occurs_at(before + part, found, n + i));
    assert((part + after).subrange(i, i + found.len()) =~= part.subrange(i, i + found.len()));
    assert(occurs_at(part + after, found, i));
}

/// The parts between separators are the text: put together again they are it,
/// and none of them holds a separator.
pub proof fn law_splitting_loses_nothing(s: Seq<char>, sep: char)
    ensures
        split_on(s, sep).len() > 0,
        joined(split_on(s, sep), seq![sep]) == s,
        forall|i: int|
            0 <= i < split_on(s, sep).len() ==> !(#[trigger] split_on(s, sep)[i]).contains(sep),
    decreases s.len(),
{
    let parts = split_on(s, sep);
    if s.len() == 0 {
        assert(joined(parts, seq![sep]) =~= s);
    } else {
        let front = split_on(s.drop_last(), sep);
        law_splitting_loses_nothing(s.drop_last(), sep);
        if s.last() == sep {
            assert(parts.drop_last() =~= front);
            assert(joined(parts, seq![sep]) =~= s);
            assert forall|i: int| 0 <= i < parts.len() implies !(#[trigger] parts[i]).contains(
                sep,
            ) by {
                if i < front.len() {
                    assert(parts[i] == front[i]);
                }
            }
        } else {
            assert(parts.drop_last() =~= front.drop_last());
            assert(parts.last() == front.last().push(s.last()));
            assert(joined(parts, seq![sep]) =~= joined(front, seq![sep]).push(s.last())) by {
                if front.len() > 1 {
                    let head = joined(front.drop_last(), seq![sep]) + seq![sep];
                    assert(head + front.last().push(s.last()) =~= (head + front.last()).push(
                        s.last(),
                    ));
                }
            }
            assert(s.drop_last().push(s.last()) =~= s);
            assert forall|i: int| 0 <= i < parts.len() implies !(#[trigger] parts[i]).contains(
                sep,
            ) by {
                if i < front.len() - 1 {
                    assert(parts[i] == front[i]);
                } else {
                    let last = front[front.len() - 1];
                    assert forall|j: int| 0 <= j < parts[i].len() implies parts[i][j] != sep by {
                        if j < last.len() {
                            assert(last.contains(last[j]));
                        }
                    }
                }
            }
        }
    }
}

/// A character put in another's place leaves every other where it is.
pub proof fn lemma_replaced_by_one(s: Seq<char>, c: char, with: char)
    ensures
        replaced(s, c, seq![with]).len() == s.len(),
        forall|i: int|
            0 <= i < s.len() ==> #[trigger] replaced(s, c, seq![with])[i] == if s[i] == c {
                with
            } else {
                s[i]
            },
    decreases s.len(),
{
    if s.len() > 0 {
        lemma_replaced_by_one(s.drop_last(), c, with);
    }
}

/// The first and the third of four texts are found in the whole.
pub proof fn lemma_has_first_and_third(a: Seq<char>, b: Seq<char>, c: Seq<char>, d: Seq<char>)
    ensures
        has_text(a + b + c + d, a),
        has_text(a + b + c + d, c),
        (a + b + c + d).len() == a.len() + b.len() + c.len() + d.len(),
{
    lemma_has_text_between(a + b, c, d);
    lemma_has_text_between(Seq::empty(), a, b + c + d);
    assert(a + (b + c + d) =~= a + b + c + d);
}

// ---------------------------------------------------------------------------
// Laws of pieces
// ---------------------------------------------------------------------------

/// What is put together with a separator between comes apart there.
pub proof fn law_a_text_splits_at_a_separator(a: Seq<char>, sep: char, b: Seq<char>)
    ensures
        split_on(a + seq![sep] + b, sep) == split_on(a, sep) + split_on(b, sep),
    decreases b.len(),
{
    let s = a + seq![sep] + b;
    if b.len() == 0 {
        assert(s.drop_last() =~= a);
        assert(s.last() == sep);
        assert(split_on(s, sep) =~= split_on(a, sep) + split_on(b, sep));
    } else {
        law_a_text_splits_at_a_separator(a, sep, b.drop_last());
        assert(s.drop_last() =~= a + seq![sep] + b.drop_last());
        assert(s.last() == b.last());
        lemma_split_on_nonempty(b.drop_last(), sep);
        assert(split_on(s, sep) =~= split_on(a, sep) + split_on(b, sep));
    }
}

/// A text without the separator is one piece.
pub proof fn law_a_text_without_separator_is_whole(s: Seq<char>, sep: char)
    requires
        !s.contains(sep),
    ensures
        split_on(s, sep) == seq![s],
    decreases s.len(),
{
    if s.len() > 0 {
        let front = s.drop_last();
        assert(s[s.len() - 1] != sep);
        assert forall|i: int| 0 <= i < front.len() implies front[i] != sep by {
            assert(front[i] == s[i]);
        }
        law_a_text_without_separator_is_whole(front, sep);
        assert(front.push(s.last()) =~= s);
        assert(split_on(s, sep) =~= seq![s]);
    } else {
        assert(s =~= Seq::empty());
    }
}

/// A line that ends in a line feed, with or without a carriage return before
/// it, is the first line of the text.
pub proof fn law_a_line_ends_at_a_line_feed(line: Seq<char>, rest: Seq<char>)
    requires
        !line.contains('\n'),
    ensures
        lines_of(line + seq!['\n'] + rest) == seq![without_return(line)] + lines_of(rest),
        lines_of(Seq::empty()) == Seq::<Seq<char>>::empty(),
        line.len() > 0 ==> lines_of(line) == seq![line],
{
    law_a_text_splits_at_a_separator(line, '\n', rest);
    law_a_text_without_separator_is_whole(line, '\n');
    lemma_split_on_nonempty(rest, '\n');
    let parts = split_on(rest, '\n');
    let all = split_on(line + seq!['\n'] + rest, '\n');
    assert(all == seq![line] + parts);
    let f = |l: Seq<char>| without_return(l);
    assert(all.last() == parts.last());
    assert(all.drop_last() =~= seq![line] + parts.drop_last());
    assert(all.drop_last().map_values(f) =~= seq![without_return(line)]
        + parts.drop_last().map_values(f));
    assert(lines_of(line + seq!['\n'] + rest) =~= seq![without_return(line)] + lines_of(rest));
    assert(split_on(Seq::empty(), '\n') =~= seq![Seq::<char>::empty()]);
    assert(lines_of(Seq::empty()) =~= Seq::<Seq<char>>::empty());
    if line.len() > 0 {
        assert(split_on(line, '\n').drop_last() =~= Seq::empty());
        assert(lines_of(line) =~= seq![line]);
    }
}

/// White space parts words, whatever stands on either side of it.
pub proof fn law_words_part_at_white_space(a: Seq<char>, space: char, b: Seq<char>)
    requires
        white_space(space),
    ensures
        words_of(a + seq![space] + b) == words_of(a) + words_of(b),
    decreases b.len(),
{
    let s = a + seq![space] + b;
    if b.len() == 0 {
        assert(s.drop_last() =~= a);
        assert(s.last() == space);
        assert(words_of(s) =~= words_of(a) + words_of(b));
    } else {
        let front = b.drop_last();
        law_words_part_at_white_space(a, space, front);
        assert(s.drop_last() =~= a + seq![space] + front);
        assert(s.last() == b.last());
        if b.len() == 1 {
            assert(s[s.len() - 2] == space);
        } else {
            assert(s[s.len() - 2] == b[b.len() - 2]);
            lemma_word_before(front);
        }
        assert(words_of(s) =~= words_of(a) + words_of(b));
    }
}

/// Where a text does not end in white space, it ends in a word.
proof fn lemma_word_before(s: Seq<char>)
    ensures
        s.len() > 0 && !white_space(s.last()) ==> words_of(s).len() > 0,
{
}

/// A text without white space is one word.
pub proof fn law_a_text_without_white_space_is_a_word(s: Seq<char>)
    requires
        s.len() > 0,
        forall|i: int| 0 <= i < s.len() ==> !white_space(#[trigger] s[i]),
    ensures
        words_of(s) == seq![s],
    decreases s.len(),
{
    let front = s.drop_last();
    assert(!white_space(s[s.len() - 1]));
    if s.len() > 1 {
        assert forall|i: int| 0 <= i < front.len() implies !white_space(#[trigger] front[i]) by {
            assert(front[i] == s[i]);
        }
        law_a_text_without_white_space_is_a_word(front);
        assert(!white_space(s[s.len() - 2]));
        assert(front.push(s.last()) =~= s);
        assert(words_of(s) =~= seq![s]);
    } else {
        assert(words_of(front) =~= Seq::empty());
        assert(seq![s.last()] =~= s);
        assert(words_of(s) =~= seq![s]);
    }
}

/// A text is cut at the first place of a character, and not without one.
pub proof fn law_a_text_is_cut_at_the_first(a: Seq<char>, c: char, b: Seq<char>)
    requires
        !a.contains(c),
    ensures
        cut_at(a + seq![c] + b, c) == Some((a, b)),
        cut_at(a, c) is None,
{
    let s = a + seq![c] + b;
    let n = a.len() as int;
    assert forall|j: int| 0 <= j < n implies !is_char(c)(#[trigger] s[j]) by {
        assert(s[j] == a[j]);
    }
    assert(s[n] == c);
    lemma_first_index_here(s, is_char(c), n);
    assert(s.take(n) =~= a);
    assert(s.skip(n + 1) =~= b);
    assert forall|j: int| 0 <= j < n implies !is_char(c)(#[trigger] a[j]) by {}
    lemma_first_index_none(a, is_char(c));
}

/// The last place of a character is the one that it does not stand behind.
pub proof fn law_the_last_place_has_none_behind(a: Seq<char>, c: char, b: Seq<char>)
    requires
        !b.contains(c),
    ensures
        last_place(a + seq![c] + b, c) == Some(a.len() as int),
        last_place(b, c) is None,
    decreases b.len(),
{
    let s = a + seq![c] + b;
    if b.len() == 0 {
        assert(s.last() == c);
    } else {
        let front = b.drop_last();
        assert(b[b.len() - 1] != c);
        assert forall|i: int| 0 <= i < front.len() implies front[i] != c by {
            assert(front[i] == b[i]);
        }
        law_the_last_place_has_none_behind(a, c, front);
        assert(s.drop_last() =~= a + seq![c] + front);
        assert(s.last() == b.last());
    }
}

/// Everything that a text ends in of a character is taken off, and nothing else.
pub proof fn law_an_ending_is_taken_off(a: Seq<char>, c: char, n: nat)
    requires
        a.len() > 0 ==> a.last() != c,
    ensures
        stripped_end(a + repeated(c, n), c) == a,
    decreases n,
{
    let s = a + repeated(c, n);
    if n == 0 {
        assert(s =~= a);
    } else {
        law_an_ending_is_taken_off(a, c, (n - 1) as nat);
        assert(s.last() == c);
        assert(s.drop_last() =~= a + repeated(c, (n - 1) as nat));
    }
}

/// A text begins with another exactly where their characters agree that far,
/// and what is behind it is the rest.
pub proof fn law_a_beginning_agrees(s: Seq<char>, prefix: Seq<char>)
    ensures
        match after_prefix(s, prefix) {
            Some(rest) => s == prefix + rest,
            None => s.len() < prefix.len() || exists|i: int|
                0 <= i < prefix.len() && #[trigger] s[i] != prefix[i],
        },
{
    if prefix.is_prefix_of(s) {
        assert(s.subrange(0, prefix.len() as int) =~= prefix);
        assert(s =~= prefix + s.skip(prefix.len() as int));
    } else if s.len() >= prefix.len() {
        if forall|i: int| 0 <= i < prefix.len() ==> #[trigger] s[i] == prefix[i] {
            assert(s.subrange(0, prefix.len() as int) =~= prefix);
        }
    }
}

/// A text that begins with another is cut behind it.
pub proof fn lemma_after_prefix(prefix: Seq<char>, rest: Seq<char>)
    ensures
        prefix.is_prefix_of(prefix + rest),
        after_prefix(prefix + rest, prefix) == Some(rest),
{
    let s = prefix + rest;
    assert(s.subrange(0, prefix.len() as int) =~= prefix);
    assert(s.skip(prefix.len() as int) =~= rest);
}

/// A text is as wide as it is padded to, begins with what was padded, and goes
/// on in blanks.
pub proof fn law_a_text_is_padded_with_blanks(s: Seq<char>, width: nat)
    ensures
        padded(s, width).len() == if s.len() < width {
            width
        } else {
            s.len()
        },
        s.is_prefix_of(padded(s, width)),
        forall|i: int| s.len() <= i < padded(s, width).len() ==> #[trigger] padded(s, width)[i]
            == ' ',
{
    assert(padded(s, width).subrange(0, s.len() as int) =~= s);
}

/// Words put together with blanks between come apart again.
pub proof fn law_words_are_read_back(parts: Seq<Seq<char>>)
    requires
        forall|i: int| 0 <= i < parts.len() ==> is_word(#[trigger] parts[i]),
    ensures
        words_of(joined(parts, seq![' '])) == parts,
    decreases parts.len(),
{
    if parts.len() == 0 {
        assert(words_of(joined(parts, seq![' '])) =~= parts);
    } else if parts.len() == 1 {
        law_a_text_without_white_space_is_a_word(parts[0]);
        assert(words_of(joined(parts, seq![' '])) =~= parts);
    } else {
        let front = parts.drop_last();
        assert forall|i: int| 0 <= i < front.len() implies is_word(#[trigger] front[i]) by {
            assert(front[i] == parts[i]);
        }
        law_words_are_read_back(front);
        assert(is_word(parts[parts.len() - 1]));
        law_words_part_at_white_space(joined(front, seq![' ']), ' ', parts.last());
        law_a_text_without_white_space_is_a_word(parts.last());
        assert(words_of(joined(parts, seq![' '])) =~= parts);
    }
}

/// Something without white space in it.
pub open spec fn is_word(s: Seq<char>) -> bool {
    s.len() > 0 && forall|i: int| 0 <= i < s.len() ==> !white_space(#[trigger] s[i])
}

/// A character is replaced wherever it stands, and nothing else is.
pub proof fn law_a_character_is_replaced_everywhere(
    a: Seq<char>,
    c: char,
    b: Seq<char>,
    with: Seq<char>,
)
    ensures
        replaced(a + seq![c] + b, c, with) == replaced(a, c, with) + with + replaced(b, c, with),
        !a.contains(c) ==> replaced(a, c, with) == a,
    decreases a.len() + b.len(),
{
    let s = a + seq![c] + b;
    if b.len() == 0 {
        assert(s.drop_last() =~= a);
        assert(s.last() == c);
        assert(replaced(s, c, with) =~= replaced(a, c, with) + with + replaced(b, c, with));
    } else {
        law_a_character_is_replaced_everywhere(a, c, b.drop_last(), with);
        assert(s.drop_last() =~= a + seq![c] + b.drop_last());
        assert(s.last() == b.last());
        assert(replaced(s, c, with) =~= replaced(a, c, with) + with + replaced(b, c, with));
    }
    if a.len() > 0 && !a.contains(c) {
        let front = a.drop_last();
        assert(a[a.len() - 1] != c);
        assert forall|i: int| 0 <= i < front.len() implies front[i] != c by {
            assert(front[i] == a[i]);
        }
        lemma_replaced_nowhere(a, c, with);
    } else if a.len() == 0 {
        assert(a =~= Seq::empty());
    }
}

proof fn lemma_replaced_nowhere(s: Seq<char>, c: char, with: Seq<char>)
    requires
        !s.contains(c),
    ensures
        replaced(s, c, with) == s,
    decreases s.len(),
{
    if s.len() > 0 {
        let front = s.drop_last();
        assert(s[s.len() - 1] != c);
        assert forall|i: int| 0 <= i < front.len() implies front[i] != c by {
            assert(front[i] == s[i]);
        }
        lemma_replaced_nowhere(front, c, with);
        assert(front.push(s.last()) =~= s);
    } else {
        assert(s =~= Seq::empty());
    }
}

/// The words of a text hold no white space, and none of them is empty.
pub proof fn law_words_are_words(s: Seq<char>)
    ensures
        forall|i: int| 0 <= i < words_of(s).len() ==> is_word(#[trigger] words_of(s)[i]),
    decreases s.len(),
{
    if s.len() > 0 {
        let front = s.drop_last();
        law_words_are_words(front);
        lemma_word_before(front);
        let before = words_of(front);
        let all = words_of(s);
        assert forall|i: int| 0 <= i < all.len() implies is_word(#[trigger] all[i]) by {
            if white_space(s.last()) {
                assert(all[i] == before[i]);
            } else if s.len() == 1 || white_space(s[s.len() - 2]) {
                if i < before.len() {
                    assert(all[i] == before[i]);
                }
            } else {
                assert(front.last() == s[s.len() - 2]);
                assert(before.len() > 0);
                if i < before.len() - 1 {
                    assert(all[i] == before[i]);
                } else {
                    assert(is_word(before[before.len() - 1]));
                    assert(all[i] == before.last().push(s.last()));
                }
            }
        }
    }
}

} // verus!

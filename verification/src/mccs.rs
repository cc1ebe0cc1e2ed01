//! Parser for MCCS capability strings.
//!
//! A capability string is a nested, parenthesised structure, e.g.
//!
//! ```text
//! (vcp(02 04 10 14(01 05 06) 60(01 03 11 0F ) 62)prot(monitor)type(LCD)mccs_ver(2.2))
//! ```
//!
//! Scanning the whole blob for `60(...)` is wrong: `60` also appears as a
//! value inside other features' value lists, inside `model(...)` text, and
//! inside vendor sections. The structure is walked with balanced parentheses,
//! so `0x60` is only read from the `vcp` section.
//!
//! A capability string is what the monitor *claims*. Nothing here is evidence
//! that a listed input actually exists or has a live source attached.

use std::collections::BTreeMap;

use vstd::prelude::*;
use vstd::slice::slice_subrange;

use crate::digits::{
    all_digits, digit_worth, hex_byte, hex_byte_value, law_a_byte_is_read_for_its_worth, worth,
};
use crate::text::{
    ascii_alphanumeric, cat3, chars_of, is_ascii_alphanumeric, is_word, joined,
    law_words_are_read_back, occurs_at, pieces, same_chars, string_of, trim_str, trimmed,
    white_space, words, words_of,
};

verus! {

broadcast use vstd::laws_cmp::group_laws_cmp;

#[derive(Debug, PartialEq, Eq)]
pub enum MccsError {
    UnbalancedParens,
    NoVcpSection,
    ValueListWithoutFeature,
    BadHexByte(String),
}

pub enum MccsErrorView {
    UnbalancedParens,
    NoVcpSection,
    ValueListWithoutFeature,
    BadHexByte(Seq<char>),
}

impl DeepView for MccsError {
    type V = MccsErrorView;

    open spec fn deep_view(&self) -> MccsErrorView {
        match self {
            MccsError::UnbalancedParens => MccsErrorView::UnbalancedParens,
            MccsError::NoVcpSection => MccsErrorView::NoVcpSection,
            MccsError::ValueListWithoutFeature => MccsErrorView::ValueListWithoutFeature,
            MccsError::BadHexByte(s) => MccsErrorView::BadHexByte(s@),
        }
    }
}

impl Clone for MccsError {
    fn clone(&self) -> (r: Self)
        ensures
            r == *self,
    {
        match self {
            MccsError::UnbalancedParens => MccsError::UnbalancedParens,
            MccsError::NoVcpSection => MccsError::NoVcpSection,
            MccsError::ValueListWithoutFeature => MccsError::ValueListWithoutFeature,
            MccsError::BadHexByte(s) => MccsError::BadHexByte(s.clone()),
        }
    }
}

impl MccsErrorView {
    pub open spec fn message(self) -> Seq<char> {
        match self {
            MccsErrorView::UnbalancedParens => "capability string has unbalanced parentheses"@,
            MccsErrorView::NoVcpSection => "capability string has no `vcp(...)` section"@,
            MccsErrorView::ValueListWithoutFeature => {
                "value list appears before any feature code"@
            },
            MccsErrorView::BadHexByte(s) => "`"@ + s
                + "` is not a valid hex byte in the vcp section"@,
        }
    }
}

impl MccsError {
    pub fn to_string(&self) -> (r: String)
        ensures
            r@ == self.deep_view().message(),
    {
        match self {
            MccsError::UnbalancedParens => {
                "capability string has unbalanced parentheses".to_owned()
            },
            MccsError::NoVcpSection => "capability string has no `vcp(...)` section".to_owned(),
            MccsError::ValueListWithoutFeature => {
                "value list appears before any feature code".to_owned()
            },
            MccsError::BadHexByte(s) => cat3(
                "`",
                s.as_str(),
                "` is not a valid hex byte in the vcp section",
            ),
        }
    }
}

/// Feature code -> advertised values. An empty list means the feature was
/// listed without a value list (normal for continuous features).
pub type VcpFeatures = BTreeMap<u8, Vec<u8>>;

/// The features as a mathematical map.
pub open spec fn features_view(m: VcpFeatures) -> Map<u8, Seq<u8>> {
    m@.map_values(|v: Vec<u8>| v@)
}

// ---------------------------------------------------------------------------
// Balanced parentheses
// ---------------------------------------------------------------------------

/// How many more parentheses `s` opens than it closes.
pub open spec fn depth(s: Seq<char>) -> int
    decreases s.len(),
{
    if s.len() == 0 {
        0
    } else {
        depth(s.drop_last()) + if s.last() == '(' {
            1int
        } else if s.last() == ')' {
            -1
        } else {
            0
        }
    }
}

/// `close` is where the parenthesis at `open` is closed: the first place at
/// which nothing opened since then is still open.
pub open spec fn closes(s: Seq<char>, open: int, close: int) -> bool {
    &&& open < close < s.len()
    &&& depth(s.subrange(open, close + 1)) == 0
    &&& forall|j: int| open <= j < close ==> depth(#[trigger] s.subrange(open, j + 1)) > 0
}

/// Where the parenthesis at `open` is closed, if it is.
pub open spec fn close_of(s: Seq<char>, open: int) -> Option<int> {
    if exists|c: int| closes(s, open, c) {
        Some(choose|c: int| closes(s, open, c))
    } else {
        None
    }
}

proof fn lemma_close_unique(s: Seq<char>, open: int, a: int, b: int)
    requires
        closes(s, open, a),
        closes(s, open, b),
    ensures
        a == b,
{
    if a < b {
        assert(depth(s.subrange(open, a + 1)) > 0);
    }
    if b < a {
        assert(depth(s.subrange(open, b + 1)) > 0);
    }
}

/// Where the parenthesis at `open` is closed.
fn balanced_from(s: &[char], open: usize) -> (r: Option<usize>)
    requires
        open < s.len(),
        s@[open as int] == '(',
    ensures
        match r {
            Some(c) => closes(s@, open as int, c as int) && close_of(s@, open as int) == Some(
                c as int,
            ),
            None => close_of(s@, open as int) is None,
        },
{
    let mut open_count: usize = 1;
    let mut i: usize = open + 1;
    proof {
        let first = s@.subrange(open as int, open as int + 1);
        assert(first.drop_last() =~= Seq::<char>::empty());
        assert(depth(first.drop_last()) == 0);
        assert(depth(first) == 1);
    }
    while i < s.len()
        invariant
            open < i <= s.len(),
            1 <= open_count <= i - open,
            open_count == depth(s@.subrange(open as int, i as int)),
            forall|j: int|
                open <= j < i ==> depth(#[trigger] s@.subrange(open as int, j + 1)) > 0,
        decreases s.len() - i,
    {
        let ghost next = s@.subrange(open as int, i as int + 1);
        assert(next.drop_last() =~= s@.subrange(open as int, i as int));
        assert(next.last() == s@[i as int]);
        if s[i] == '(' {
            open_count += 1;
        } else if s[i] == ')' {
            open_count -= 1;
            if open_count == 0 {
                assert(closes(s@, open as int, i as int));
                proof {
                    lemma_close_unique(
                        s@,
                        open as int,
                        i as int,
                        choose|c: int| closes(s@, open as int, c),
                    );
                }
                return Some(i);
            }
        }
        i += 1;
    }
    assert forall|c: int| !closes(s@, open as int, c) by {
        if closes(s@, open as int, c) {
            assert(depth(s@.subrange(open as int, c + 1)) > 0);
        }
    }
    None
}

// ---------------------------------------------------------------------------
// Sections
// ---------------------------------------------------------------------------

/// The first place from `j` on that is not a space.
pub open spec fn past_spaces(s: Seq<char>, j: int) -> int
    decreases s.len() - j,
{
    if 0 <= j < s.len() && s[j] == ' ' {
        past_spaces(s, j + 1)
    } else {
        j
    }
}

/// Where the parenthesis of the section `key` stands, when the `key` at `at`
/// is a word of its own and a parenthesis follows it.
pub open spec fn section_paren(caps: Seq<char>, key: Seq<char>, at: int) -> Option<int> {
    let j = past_spaces(caps, at + key.len());
    if (at == 0 || !ascii_alphanumeric(caps[at - 1])) && 0 <= j < caps.len() && caps[j] == '(' {
        Some(j)
    } else {
        None
    }
}

/// What stands between the parenthesis at `open` and the one that closes it.
pub open spec fn between_parens(s: Seq<char>, open: int) -> Result<Seq<char>, MccsErrorView> {
    match close_of(s, open) {
        Some(c) => Ok(s.subrange(open + 1, c)),
        None => Err(MccsErrorView::UnbalancedParens),
    }
}

/// Whether a parenthesis behind `before` is a section's: a key stands before
/// it, with nothing but spaces between them.
pub open spec fn keyed(before: Seq<char>) -> bool
    decreases before.len(),
{
    if before.len() == 0 {
        false
    } else if before.last() == ' ' {
        keyed(before.drop_last())
    } else {
        ascii_alphanumeric(before.last())
    }
}

/// The parentheses that `s` leaves open, from the outermost inwards: of each,
/// whether it is a section's.
pub open spec fn still_open(s: Seq<char>) -> Seq<bool>
    decreases s.len(),
{
    if s.len() == 0 {
        Seq::empty()
    } else {
        let before = still_open(s.drop_last());
        if s.last() == '(' {
            before.push(keyed(s.drop_last()))
        } else if s.last() == ')' && before.len() > 0 {
            before.drop_last()
        } else {
            before
        }
    }
}

/// Whether what begins at `at` stands at the top level of `caps`: inside no
/// section. Parentheses that are no section's, such as those around the whole,
/// do not count.
pub open spec fn at_top(caps: Seq<char>, at: int) -> bool {
    !still_open(caps.take(at)).contains(true)
}

/// The contents of the first section `key` at the top level of `caps`, from
/// `from` on. A `key` that opens no section there is passed over as a whole.
pub open spec fn section_from(caps: Seq<char>, key: Seq<char>, from: int) -> Result<
    Option<Seq<char>>,
    MccsErrorView,
>
    decreases caps.len() - from,
{
    if key.len() == 0 || from < 0 || from + key.len() > caps.len() {
        Ok(None)
    } else if occurs_at(caps, key, from) {
        match section_paren(caps, key, from) {
            Some(j) if at_top(caps, from) => match between_parens(caps, j) {
                Ok(inner) => Ok(Some(inner)),
                Err(e) => Err(e),
            },
            _ => section_from(caps, key, from + key.len()),
        }
    } else {
        section_from(caps, key, from + 1)
    }
}

/// The contents of the section `key` at the top level of `caps`. Text that is
/// not ASCII has no sections.
pub open spec fn section_of(caps: Seq<char>, key: Seq<char>) -> Result<
    Option<Seq<char>>,
    MccsErrorView,
> {
    if vstd::utf8::is_ascii_chars(caps) {
        section_from(caps, key, 0)
    } else {
        Ok(None)
    }
}

fn skip_spaces(s: &[char], j: usize) -> (r: usize)
    requires
        j <= s.len(),
    ensures
        r == past_spaces(s@, j as int),
        j <= r <= s.len(),
{
    let mut i: usize = j;
    while i < s.len() && s[i] == ' '
        invariant
            j <= i <= s.len(),
            past_spaces(s@, j as int) == past_spaces(s@, i as int),
        decreases s.len() - i,
    {
        i += 1;
    }
    i
}

/// Whether what begins at `at` is inside no section.
fn stands_at_top(s: &[char], at: usize) -> (r: bool)
    requires
        at <= s.len(),
    ensures
        r == at_top(s@, at as int),
{
    let mut open: Vec<bool> = Vec::new();
    let mut key_before = false;
    let mut i: usize = 0;
    assert(s@.take(0) =~= Seq::<char>::empty());
    while i < at
        invariant
            i <= at <= s.len(),
            open@ == still_open(s@.take(i as int)),
            key_before == keyed(s@.take(i as int)),
        decreases at - i,
    {
        let ghost next = s@.take(i as int + 1);
        assert(next.drop_last() =~= s@.take(i as int));
        assert(next.last() == s@[i as int]);
        let c = s[i];
        if c == '(' {
            open.push(key_before);
        } else if c == ')' && open.len() > 0 {
            open.pop();
        }
        if c != ' ' {
            key_before = is_ascii_alphanumeric(c);
        }
        i += 1;
    }
    let mut k: usize = 0;
    while k < open.len()
        invariant
            k <= open@.len(),
            open@ == still_open(s@.take(at as int)),
            forall|j: int| 0 <= j < k ==> !#[trigger] open@[j],
        decreases open@.len() - k,
    {
        if open[k] {
            assert(open@.contains(true));
            return false;
        }
        k += 1;
    }
    true
}

/// Returns the contents of `key(...)` at the top level of `caps`, handling
/// nesting inside the section.
///
/// `Ok(None)` means the key is absent. An unbalanced section is an error
/// rather than an absence, so a truncated capability string is reported as
/// truncated instead of as a monitor that does not support the feature.
pub fn try_extract_section<'a>(caps: &'a str, key: &str) -> (r: Result<Option<&'a str>, MccsError>)
    requires
        key@.len() > 0,
    ensures
        match r {
            Ok(Some(s)) => section_of(caps@, key@) == Ok::<Option<Seq<char>>, MccsErrorView>(
                Some(s@),
            ),
            Ok(None) => section_of(caps@, key@) == Ok::<Option<Seq<char>>, MccsErrorView>(None),
            Err(e) => section_of(caps@, key@) == Err::<Option<Seq<char>>, MccsErrorView>(
                e.deep_view(),
            ),
        },
{
    if !caps.is_ascii() {
        return Ok(None);
    }
    let text = chars_of(caps);
    let word = chars_of(key);
    let s = text.as_slice();
    let k = word.as_slice();
    let mut from: usize = 0;
    while k.len() <= s.len() - from
        invariant
            s@ == caps@,
            k@ == key@,
            key@.len() > 0,
            from <= s.len(),
            vstd::utf8::is_ascii_chars(caps@),
            section_of(caps@, key@) == section_from(caps@, key@, from as int),
        decreases s.len() - from,
    {
        if same_chars(slice_subrange(s, from, from + k.len()), k) {
            assert(occurs_at(caps@, key@, from as int));
            let boundary = from == 0 || !is_ascii_alphanumeric(s[from - 1]);
            let j: usize = skip_spaces(s, from + k.len());
            if boundary && j < s.len() && s[j] == '(' && stands_at_top(s, from) {
                assert(section_paren(caps@, key@, from as int) == Some(j as int));
                match balanced_from(s, j) {
                    Some(c) => {
                        return Ok(Some(caps.substring_char(j + 1, c)));
                    },
                    None => {
                        return Err(MccsError::UnbalancedParens);
                    },
                }
            }
            from = from + k.len();
        } else {
            assert(!occurs_at(caps@, key@, from as int));
            from = from + 1;
        }
    }
    Ok(None)
}

/// Convenience wrapper that treats a malformed section as absent.
pub fn extract_section<'a>(caps: &'a str, key: &str) -> (r: Option<&'a str>)
    requires
        key@.len() > 0,
    ensures
        crate::types::opt_str(r) == section_or_none(caps@, key@),
{
    match try_extract_section(caps, key) {
        Ok(found) => found,
        Err(_) => None,
    }
}

/// The contents of a section, or nothing where it is absent or malformed.
pub open spec fn section_or_none(caps: Seq<char>, key: Seq<char>) -> Option<Seq<char>> {
    match section_of(caps, key) {
        Ok(found) => found,
        Err(_) => None,
    }
}

// ---------------------------------------------------------------------------
// The feature list
// ---------------------------------------------------------------------------

pub open spec fn ascii_space(c: char) -> bool {
    c == ' ' || c == '\t' || c == '\n' || c == '\u{c}' || c == '\r'
}

fn is_ascii_space(c: char) -> (r: bool)
    ensures
        r == ascii_space(c),
{
    c == ' ' || c == '\t' || c == '\n' || c == '\u{c}' || c == '\r'
}

/// Whether a token ends before `c`.
pub open spec fn ends_token(c: char) -> bool {
    ascii_space(c) || c == '(' || c == ')'
}

/// Where the token that begins at `i` ends.
pub open spec fn token_end(s: Seq<char>, i: int) -> int
    decreases s.len() - i,
{
    if 0 <= i < s.len() && !ends_token(s[i]) {
        token_end(s, i + 1)
    } else {
        i
    }
}

/// The byte a token stands for.
pub open spec fn token_byte(token: Seq<char>) -> Result<u8, MccsErrorView> {
    match hex_byte_value(token) {
        Some(b) => Ok(b),
        None => Err(MccsErrorView::BadHexByte(token)),
    }
}

/// The bytes of a value list; the first token that is none is the error.
pub open spec fn token_bytes(tokens: Seq<Seq<char>>) -> Result<Seq<u8>, MccsErrorView>
    decreases tokens.len(),
{
    if tokens.len() == 0 {
        Ok(Seq::empty())
    } else {
        match token_bytes(tokens.drop_last()) {
            Err(e) => Err(e),
            Ok(front) => match token_byte(tokens.last()) {
                Ok(b) => Ok(front.push(b)),
                Err(e) => Err(e),
            },
        }
    }
}

/// A feature listed without values keeps the values it already has.
pub open spec fn listed(acc: Map<u8, Seq<u8>>, pending: Option<u8>) -> Map<u8, Seq<u8>> {
    match pending {
        Some(code) => if acc.contains_key(code) {
            acc
        } else {
            acc.insert(code, Seq::empty())
        },
        None => acc,
    }
}

/// The features of the list `s` from place `i` on, given those before it and
/// the feature code just read, which a value list may follow.
pub open spec fn features_from(
    s: Seq<char>,
    i: int,
    acc: Map<u8, Seq<u8>>,
    pending: Option<u8>,
) -> Result<Map<u8, Seq<u8>>, MccsErrorView>
    decreases s.len() - i,
    when 0 <= i <= s.len()
    via features_from_decreases
{
    if i >= s.len() {
        Ok(listed(acc, pending))
    } else if ascii_space(s[i]) {
        features_from(s, i + 1, acc, pending)
    } else if s[i] == '(' {
        match pending {
            None => Err(MccsErrorView::ValueListWithoutFeature),
            Some(code) => match close_of(s, i) {
                None => Err(MccsErrorView::UnbalancedParens),
                Some(c) => match token_bytes(words_of(s.subrange(i + 1, c))) {
                    Err(e) => Err(e),
                    Ok(values) => features_from(s, c + 1, acc.insert(code, values), None),
                },
            },
        }
    } else if s[i] == ')' {
        Err(MccsErrorView::UnbalancedParens)
    } else {
        match token_byte(s.subrange(i, token_end(s, i))) {
            Err(e) => Err(e),
            Ok(code) => features_from(s, token_end(s, i), listed(acc, pending), Some(code)),
        }
    }
}

#[via_fn]
proof fn features_from_decreases(
    s: Seq<char>,
    i: int,
    acc: Map<u8, Seq<u8>>,
    pending: Option<u8>,
) {
    lemma_token_end(s, i);
    if i < s.len() && close_of(s, i) is Some {
        assert(closes(s, i, close_of(s, i)->0));
    }
}

proof fn lemma_token_end(s: Seq<char>, i: int)
    requires
        0 <= i <= s.len(),
    ensures
        i <= token_end(s, i) <= s.len(),
        i < s.len() && !ends_token(s[i]) ==> i < token_end(s, i),
    decreases s.len() - i,
{
    if i < s.len() && !ends_token(s[i]) {
        lemma_token_end(s, i + 1);
    }
}

fn find_token_end(s: &[char], start: usize) -> (r: usize)
    requires
        start <= s.len(),
    ensures
        r == token_end(s@, start as int),
        start <= r <= s.len(),
{
    let mut i: usize = start;
    while i < s.len() && !is_ascii_space(s[i]) && s[i] != '(' && s[i] != ')'
        invariant
            start <= i <= s.len(),
            token_end(s@, start as int) == token_end(s@, i as int),
        decreases s.len() - i,
    {
        i += 1;
    }
    i
}

fn parse_hex_byte(tok: &[char]) -> (r: Result<u8, MccsError>)
    ensures
        match r {
            Ok(b) => token_byte(tok@) == Ok::<u8, MccsErrorView>(b),
            Err(e) => token_byte(tok@) == Err::<u8, MccsErrorView>(e.deep_view()),
        },
{
    match hex_byte(tok) {
        Some(b) => Ok(b),
        None => Err(MccsError::BadHexByte(string_of(tok))),
    }
}

fn parse_values(inner: &[char]) -> (r: Result<Vec<u8>, MccsError>)
    ensures
        match r {
            Ok(v) => token_bytes(words_of(inner@)) == Ok::<Seq<u8>, MccsErrorView>(v@),
            Err(e) => token_bytes(words_of(inner@)) == Err::<Seq<u8>, MccsErrorView>(
                e.deep_view(),
            ),
        },
{
    let tokens = words(inner);
    let ghost all = words_of(inner@);
    let mut out: Vec<u8> = Vec::new();
    let mut i: usize = 0;
    assert(all.take(0) =~= Seq::<Seq<char>>::empty());
    while i < tokens.len()
        invariant
            i <= tokens.len(),
            pieces(tokens@) == all,
            all == words_of(inner@),
            token_bytes(all.take(i as int)) == Ok::<Seq<u8>, MccsErrorView>(out@),
        decreases tokens.len() - i,
    {
        assert(all.take(i as int + 1).drop_last() =~= all.take(i as int));
        assert(all[i as int] == tokens@[i as int]@);
        match parse_hex_byte(tokens[i]) {
            Ok(b) => {
                out.push(b);
            },
            Err(e) => {
                proof {
                    lemma_first_bad_token(all, i as int + 1);
                }
                return Err(e);
            },
        }
        i += 1;
    }
    assert(all.take(all.len() as int) =~= all);
    Ok(out)
}

/// An error in the first tokens is the error of them all.
proof fn lemma_first_bad_token(tokens: Seq<Seq<char>>, n: int)
    requires
        0 <= n <= tokens.len(),
        token_bytes(tokens.take(n)) is Err,
    ensures
        token_bytes(tokens) == token_bytes(tokens.take(n)),
    decreases tokens.len() - n,
{
    if n < tokens.len() {
        assert(tokens.take(n + 1).drop_last() =~= tokens.take(n));
        lemma_first_bad_token(tokens, n + 1);
    } else {
        assert(tokens.take(n) =~= tokens);
    }
}

/// The feature without a value list that was read last, taken into the list.
fn list_pending(out: &mut VcpFeatures, pending: Option<u8>)
    ensures
        features_view(*final(out)) == listed(features_view(*old(out)), pending),
{
    if let Some(code) = pending {
        if !out.contains_key(&code) {
            let none: Vec<u8> = Vec::new();
            out.insert(code, none);
            assert(features_view(*out) =~= features_view(*old(out)).insert(code, Seq::empty()));
        }
    }
}

fn parse_feature_list(s: &[char]) -> (r: Result<VcpFeatures, MccsError>)
    ensures
        match r {
            Ok(m) => features_from(s@, 0, Map::empty(), None) == Ok::<
                Map<u8, Seq<u8>>,
                MccsErrorView,
            >(features_view(m)),
            Err(e) => features_from(s@, 0, Map::empty(), None) == Err::<
                Map<u8, Seq<u8>>,
                MccsErrorView,
            >(e.deep_view()),
        },
{
    let mut out: VcpFeatures = BTreeMap::new();
    let mut pending: Option<u8> = None;
    let mut i: usize = 0;
    let ghost want = features_from(s@, 0, Map::empty(), None);
    assert(features_view(out) =~= Map::<u8, Seq<u8>>::empty());
    while i < s.len()
        invariant
            i <= s.len(),
            want == features_from(s@, 0, Map::empty(), None),
            want == features_from(s@, i as int, features_view(out), pending),
        decreases s.len() - i,
    {
        let c: char = s[i];
        if is_ascii_space(c) {
            i += 1;
        } else if c == '(' {
            match pending {
                None => {
                    return Err(MccsError::ValueListWithoutFeature);
                },
                Some(code) => match balanced_from(s, i) {
                    None => {
                        return Err(MccsError::UnbalancedParens);
                    },
                    Some(close) => match parse_values(slice_subrange(s, i + 1, close)) {
                        Err(e) => {
                            return Err(e);
                        },
                        Ok(values) => {
                            let ghost before = features_view(out);
                            let ghost list = values@;
                            out.insert(code, values);
                            assert(features_view(out) =~= before.insert(code, list));
                            pending = None;
                            i = close + 1;
                        },
                    },
                },
            }
        } else if c == ')' {
            return Err(MccsError::UnbalancedParens);
        } else {
            proof {
                lemma_token_end(s@, i as int);
            }
            let end: usize = find_token_end(s, i);
            match parse_hex_byte(slice_subrange(s, i, end)) {
                Err(e) => {
                    return Err(e);
                },
                Ok(code) => {
                    list_pending(&mut out, pending);
                    pending = Some(code);
                    i = end;
                },
            }
        }
    }
    list_pending(&mut out, pending);
    Ok(out)
}

/// The features listed in the `vcp` section of a capability string.
pub open spec fn vcp_features(caps: Seq<char>) -> Result<Map<u8, Seq<u8>>, MccsErrorView> {
    match section_of(caps, "vcp"@) {
        Err(e) => Err(e),
        Ok(None) => Err(MccsErrorView::NoVcpSection),
        Ok(Some(inner)) => features_from(inner, 0, Map::empty(), None),
    }
}

/// Parse the `vcp(...)` section of a capability string into feature -> values.
pub fn parse_vcp_features(caps: &str) -> (r: Result<VcpFeatures, MccsError>)
    ensures
        match r {
            Ok(m) => vcp_features(caps@) == Ok::<Map<u8, Seq<u8>>, MccsErrorView>(
                features_view(m),
            ),
            Err(e) => vcp_features(caps@) == Err::<Map<u8, Seq<u8>>, MccsErrorView>(
                e.deep_view(),
            ),
        },
{
    proof {
        reveal_strlit("vcp");
    }
    match try_extract_section(caps, "vcp") {
        Err(e) => Err(e),
        Ok(None) => Err(MccsError::NoVcpSection),
        Ok(Some(inner)) => {
            let cs = chars_of(inner);
            parse_feature_list(cs.as_slice())
        },
    }
}

/// The values advertised for VCP 0x60, from the `vcp` section alone.
pub open spec fn input_values(caps: Seq<char>) -> Result<Option<Seq<u8>>, MccsErrorView> {
    match vcp_features(caps) {
        Err(e) => Err(e),
        Ok(m) => if m.contains_key(0x60u8) {
            Ok(Some(m[0x60u8]))
        } else {
            Ok(None)
        },
    }
}

/// A copy of the values listed for a feature.
pub fn values_of(features: &VcpFeatures, code: u8) -> (r: Option<Vec<u8>>)
    ensures
        match r {
            Some(v) => features_view(*features).contains_key(code) && features_view(*features)[code]
                == v@,
            None => !features_view(*features).contains_key(code),
        },
{
    match features.get(&code) {
        Some(v) => Some(vstd::slice::slice_to_vec(v.as_slice())),
        None => None,
    }
}

/// The values advertised for VCP 0x60.
///
/// `Ok(None)` means the monitor parsed cleanly but never listed feature 0x60,
/// which is different from a parse failure and different from an empty list.
pub fn input_source_values(caps: &str) -> (r: Result<Option<Vec<u8>>, MccsError>)
    ensures
        match r {
            Ok(Some(v)) => input_values(caps@) == Ok::<Option<Seq<u8>>, MccsErrorView>(Some(v@)),
            Ok(None) => input_values(caps@) == Ok::<Option<Seq<u8>>, MccsErrorView>(None),
            Err(e) => input_values(caps@) == Err::<Option<Seq<u8>>, MccsErrorView>(e.deep_view()),
        },
{
    match parse_vcp_features(caps) {
        Err(e) => Err(e),
        Ok(m) => Ok(values_of(&m, crate::types::VCP_INPUT_SOURCE)),
    }
}

/// The trimmed contents of a section, when it is there.
pub open spec fn trimmed_section(caps: Seq<char>, key: Seq<char>) -> Option<Seq<char>> {
    match section_or_none(caps, key) {
        Some(s) => Some(trimmed(s)),
        None => None,
    }
}

/// Pull `model(...)` out of a capability string, when present.
pub fn model(caps: &str) -> (r: Option<String>)
    ensures
        crate::text::opt_text(r) == trimmed_section(caps@, "model"@),
{
    proof {
        reveal_strlit("model");
    }
    match extract_section(caps, "model") {
        Some(s) => Some(trim_str(s)),
        None => None,
    }
}

/// Pull `mccs_ver(...)` out of a capability string, when present.
pub fn mccs_version(caps: &str) -> (r: Option<String>)
    ensures
        crate::text::opt_text(r) == trimmed_section(caps@, "mccs_ver"@),
{
    proof {
        reveal_strlit("mccs_ver");
    }
    match extract_section(caps, "mccs_ver") {
        Some(s) => Some(trim_str(s)),
        None => None,
    }
}

/// Only the `vcp` section says which inputs a monitor claims: two capability
/// strings with the same `vcp` section advertise the same inputs, whatever
/// else they hold.
pub proof fn law_inputs_come_from_the_vcp_section_alone(a: Seq<char>, b: Seq<char>)
    requires
        section_of(a, "vcp"@) == section_of(b, "vcp"@),
    ensures
        input_values(a) == input_values(b),
{
}

/// A section that is returned stands between a parenthesis and the one that
/// closes it, and its own parentheses are balanced.
pub proof fn law_sections_are_balanced(caps: Seq<char>, key: Seq<char>)
    requires
        section_of(caps, key) matches Ok(Some(_)),
    ensures
        exists|open: int, close: int|
            #![trigger closes(caps, open, close)]
            closes(caps, open, close) && caps[open] == '(' && section_of(caps, key) == Ok::<
                Option<Seq<char>>,
                MccsErrorView,
            >(Some(caps.subrange(open + 1, close))),
{
    lemma_section_between(caps, key, 0);
}

proof fn lemma_section_between(caps: Seq<char>, key: Seq<char>, from: int)
    requires
        section_from(caps, key, from) matches Ok(Some(_)),
    ensures
        exists|open: int, close: int|
            #![trigger closes(caps, open, close)]
            closes(caps, open, close) && caps[open] == '(' && section_from(caps, key, from) == Ok::<
                Option<Seq<char>>,
                MccsErrorView,
            >(Some(caps.subrange(open + 1, close))),
    decreases caps.len() - from,
{
    if occurs_at(caps, key, from) {
        match section_paren(caps, key, from) {
            Some(j) if at_top(caps, from) => {
                let c = close_of(caps, j)->0;
                assert(closes(caps, j, c));
            },
            _ => {
                lemma_section_between(caps, key, from + key.len());
            },
        }
    } else {
        lemma_section_between(caps, key, from + 1);
    }
}

/// Whatever a section holds inside its own parentheses is no section: one that
/// is returned is named at the top level.
pub proof fn law_sections_stand_at_the_top(caps: Seq<char>, key: Seq<char>)
    requires
        section_of(caps, key) matches Ok(Some(_)),
    ensures
        exists|at: int|
            0 <= at < caps.len() && #[trigger] at_top(caps, at) && occurs_at(caps, key, at)
                && (section_paren(caps, key, at) matches Some(open) && section_of(caps, key)
                == Ok::<Option<Seq<char>>, MccsErrorView>(
                Some(caps.subrange(open + 1, close_of(caps, open)->0)),
            )),
{
    lemma_section_named(caps, key, 0);
}

proof fn lemma_section_named(caps: Seq<char>, key: Seq<char>, from: int)
    requires
        section_from(caps, key, from) matches Ok(Some(_)),
    ensures
        exists|at: int|
            0 <= at < caps.len() && #[trigger] at_top(caps, at) && occurs_at(caps, key, at)
                && (section_paren(caps, key, at) matches Some(open) && section_from(
                caps,
                key,
                from,
            ) == Ok::<Option<Seq<char>>, MccsErrorView>(
                Some(caps.subrange(open + 1, close_of(caps, open)->0)),
            )),
    decreases caps.len() - from,
{
    if occurs_at(caps, key, from) {
        match section_paren(caps, key, from) {
            Some(_) if at_top(caps, from) => {},
            _ => {
                lemma_section_named(caps, key, from + key.len());
            },
        }
    } else {
        lemma_section_named(caps, key, from + 1);
    }
}

// ---------------------------------------------------------------------------
// Laws of capability strings
// ---------------------------------------------------------------------------

/// The first place of a key that opens a section at the top is its section,
/// whatever stands inside other sections before it.
pub proof fn law_a_section_is_found_where_it_stands(
    caps: Seq<char>,
    key: Seq<char>,
    at: int,
    open: int,
    close: int,
)
    requires
        vstd::utf8::is_ascii_chars(caps),
        key.len() > 0,
        occurs_at(caps, key, at),
        at_top(caps, at),
        at == 0 || !ascii_alphanumeric(caps[at - 1]),
        at + key.len() <= open < caps.len(),
        forall|k: int| at + key.len() <= k < open ==> #[trigger] caps[k] == ' ',
        caps[open] == '(',
        closes(caps, open, close),
        forall|j: int|
            0 <= j < at && #[trigger] occurs_at(caps, key, j) ==> j + key.len() <= at && (
            section_paren(caps, key, j) is None || !at_top(caps, j)),
    ensures
        section_of(caps, key) == Ok::<Option<Seq<char>>, MccsErrorView>(
            Some(caps.subrange(open + 1, close)),
        ),
{
    lemma_section_from(caps, key, 0, at);
    lemma_past_blanks(caps, at + key.len(), open);
    assert(section_paren(caps, key, at) == Some(open));
    let c = choose|c: int| closes(caps, open, c);
    lemma_closes_once(caps, open, close, c);
}

proof fn lemma_section_from(caps: Seq<char>, key: Seq<char>, from: int, at: int)
    requires
        key.len() > 0,
        0 <= from <= at,
        at + key.len() <= caps.len(),
        forall|j: int|
            from <= j < at && #[trigger] occurs_at(caps, key, j) ==> j + key.len() <= at && (
            section_paren(caps, key, j) is None || !at_top(caps, j)),
    ensures
        section_from(caps, key, from) == section_from(caps, key, at),
    decreases at - from,
{
    if from < at {
        if occurs_at(caps, key, from) {
            lemma_section_from(caps, key, from + key.len(), at);
        } else {
            lemma_section_from(caps, key, from + 1, at);
        }
    }
}

proof fn lemma_past_blanks(s: Seq<char>, j: int, end: int)
    requires
        0 <= j <= end < s.len(),
        forall|k: int| j <= k < end ==> #[trigger] s[k] == ' ',
        s[end] != ' ',
    ensures
        past_spaces(s, j) == end,
    decreases end - j,
{
    if j < end {
        lemma_past_blanks(s, j + 1, end);
    }
}

proof fn lemma_closes_once(s: Seq<char>, open: int, a: int, b: int)
    requires
        closes(s, open, a),
        closes(s, open, b),
    ensures
        a == b,
{
    if a < b {
        assert(depth(s.subrange(open, a + 1)) > 0);
    }
    if b < a {
        assert(depth(s.subrange(open, b + 1)) > 0);
    }
}

/// Something that reads as a byte: one or two hexadecimal digits.
pub open spec fn is_code(t: Seq<char>) -> bool {
    1 <= t.len() <= 2 && all_digits(t, 16)
}

/// A feature as a capability string lists it: its code and, where it has any,
/// its values in parentheses.
pub open spec fn feature_text(f: (Seq<char>, Option<Seq<Seq<char>>>)) -> Seq<char> {
    f.0 + match f.1 {
        Some(values) => seq!['('] + joined(values, seq![' ']) + seq![')'],
        None => Seq::empty(),
    } + seq![' ']
}

pub open spec fn features_text(fs: Seq<(Seq<char>, Option<Seq<Seq<char>>>)>) -> Seq<char>
    decreases fs.len(),
{
    if fs.len() == 0 {
        Seq::empty()
    } else {
        feature_text(fs[0]) + features_text(fs.skip(1))
    }
}

pub open spec fn is_feature(f: (Seq<char>, Option<Seq<Seq<char>>>)) -> bool {
    &&& is_code(f.0)
    &&& f.1 matches Some(values) ==> forall|i: int|
        0 <= i < values.len() ==> is_code(#[trigger] values[i])
}

/// What such a list means: a feature with values has these, and one without
/// has none unless they were listed before.
pub open spec fn with_feature(
    acc: Map<u8, Seq<u8>>,
    f: (Seq<char>, Option<Seq<Seq<char>>>),
) -> Map<u8, Seq<u8>> {
    let code = worth(f.0, 16) as u8;
    match f.1 {
        Some(values) => acc.insert(
            code,
            Seq::new(values.len(), |i: int| worth(values[i], 16) as u8),
        ),
        None => if acc.contains_key(code) {
            acc
        } else {
            acc.insert(code, Seq::empty())
        },
    }
}

pub open spec fn features_meant(
    acc: Map<u8, Seq<u8>>,
    fs: Seq<(Seq<char>, Option<Seq<Seq<char>>>)>,
) -> Map<u8, Seq<u8>>
    decreases fs.len(),
{
    if fs.len() == 0 {
        acc
    } else {
        features_meant(with_feature(acc, fs[0]), fs.skip(1))
    }
}

proof fn lemma_code(t: Seq<char>)
    requires
        is_code(t),
    ensures
        token_byte(t) == Ok::<u8, MccsErrorView>(worth(t, 16) as u8),
        is_word(t),
        forall|i: int| 0 <= i < t.len() ==> !ends_token(#[trigger] t[i]),
{
    law_a_byte_is_read_for_its_worth(t);
    assert forall|i: int| 0 <= i < t.len() implies !ends_token(#[trigger] t[i]) && !white_space(
        t[i],
    ) by {
        assert(0 <= digit_worth(t[i]) < 16);
    }
}

proof fn lemma_codes(values: Seq<Seq<char>>)
    requires
        forall|i: int| 0 <= i < values.len() ==> is_code(#[trigger] values[i]),
    ensures
        token_bytes(values) == Ok::<Seq<u8>, MccsErrorView>(
            Seq::new(values.len(), |i: int| worth(values[i], 16) as u8),
        ),
    decreases values.len(),
{
    let all = Seq::new(values.len(), |i: int| worth(values[i], 16) as u8);
    if values.len() == 0 {
        assert(all =~= Seq::empty());
    } else {
        let front = values.drop_last();
        assert forall|i: int| 0 <= i < front.len() implies is_code(#[trigger] front[i]) by {
            assert(front[i] == values[i]);
        }
        lemma_codes(front);
        assert(is_code(values[values.len() - 1]));
        lemma_code(values.last());
        assert(Seq::new(front.len(), |i: int| worth(front[i], 16) as u8).push(
            worth(values.last(), 16) as u8,
        ) =~= all);
    }
}

proof fn lemma_joined_codes(values: Seq<Seq<char>>)
    requires
        forall|i: int| 0 <= i < values.len() ==> is_code(#[trigger] values[i]),
    ensures
        words_of(joined(values, seq![' '])) == values,
        forall|i: int|
            0 <= i < joined(values, seq![' ']).len() ==> #[trigger] joined(values, seq![' '])[i]
                != '(' && joined(values, seq![' '])[i] != ')',
    decreases values.len(),
{
    assert forall|i: int| 0 <= i < values.len() implies is_word(#[trigger] values[i]) by {
        lemma_code(values[i]);
    }
    law_words_are_read_back(values);
    if values.len() == 1 {
        lemma_code(values[0]);
        assert forall|i: int| 0 <= i < values[0].len() implies #[trigger] values[0][i] != '('
            && values[0][i] != ')' by {
            assert(!ends_token(values[0][i]));
        }
    } else if values.len() > 1 {
        let front = values.drop_last();
        assert forall|i: int| 0 <= i < front.len() implies is_code(#[trigger] front[i]) by {
            assert(front[i] == values[i]);
        }
        lemma_joined_codes(front);
        assert(is_code(values[values.len() - 1]));
        lemma_code(values.last());
        let head = joined(front, seq![' ']);
        let all = joined(values, seq![' ']);
        assert(all == head + seq![' '] + values.last());
        assert forall|i: int| 0 <= i < all.len() implies #[trigger] all[i] != '(' && all[i]
            != ')' by {
            if i < head.len() {
                assert(all[i] == head[i]);
            } else if i > head.len() {
                let k = i - head.len() - 1;
                assert(all[i] == values.last()[k]);
                assert(!ends_token(values.last()[k]));
            }
        }
    }
}

proof fn lemma_depth_flat(s: Seq<char>)
    requires
        s.len() > 0,
        s[0] == '(',
        forall|i: int| 1 <= i < s.len() ==> #[trigger] s[i] != '(' && s[i] != ')',
    ensures
        depth(s) == 1,
    decreases s.len(),
{
    if s.len() == 1 {
        assert(depth(s.drop_last()) == 0);
        assert(s.last() == '(');
    } else {
        let front = s.drop_last();
        assert forall|i: int| 1 <= i < front.len() implies #[trigger] front[i] != '(' && front[i]
            != ')' by {
            assert(front[i] == s[i]);
        }
        lemma_depth_flat(front);
        assert(s[s.len() - 1] == s.last());
    }
}

proof fn lemma_closes_flat(s: Seq<char>, open: int, close: int)
    requires
        0 <= open < close < s.len(),
        s[open] == '(',
        s[close] == ')',
        forall|i: int| open < i < close ==> #[trigger] s[i] != '(' && s[i] != ')',
    ensures
        close_of(s, open) == Some(close),
{
    assert forall|j: int| open <= j < close implies depth(#[trigger] s.subrange(open, j + 1))
        == 1 by {
        let part = s.subrange(open, j + 1);
        assert forall|i: int| 1 <= i < part.len() implies #[trigger] part[i] != '(' && part[i]
            != ')' by {
            assert(part[i] == s[open + i]);
        }
        lemma_depth_flat(part);
    }
    let whole = s.subrange(open, close + 1);
    assert(whole.drop_last() =~= s.subrange(open, close - 1 + 1));
    assert(whole.last() == ')');
    assert(closes(s, open, close));
    let c = choose|c: int| closes(s, open, c);
    lemma_closes_once(s, open, close, c);
}

proof fn lemma_token_ends(s: Seq<char>, i: int, end: int)
    requires
        0 <= i <= end <= s.len(),
        forall|k: int| i <= k < end ==> !ends_token(#[trigger] s[k]),
        end < s.len() ==> ends_token(s[end]),
    ensures
        token_end(s, i) == end,
    decreases end - i,
{
    if i < end {
        lemma_token_ends(s, i + 1, end);
    }
}

/// The listed features are read one after the other, whatever comes behind.
proof fn lemma_features_read(
    s: Seq<char>,
    i: int,
    acc: Map<u8, Seq<u8>>,
    pending: Option<u8>,
    fs: Seq<(Seq<char>, Option<Seq<Seq<char>>>)>,
    tail: Seq<char>,
) -> (end: (Map<u8, Seq<u8>>, Option<u8>))
    requires
        0 <= i <= s.len(),
        s.skip(i) == features_text(fs) + tail,
        forall|k: int| 0 <= k < fs.len() ==> is_feature(#[trigger] fs[k]),
    ensures
        features_from(s, i, acc, pending) == features_from(s, s.len() - tail.len(), end.0, end.1),
        listed(end.0, end.1) == features_meant(listed(acc, pending), fs),
    decreases fs.len(),
{
    let text = features_text(fs) + tail;
    assert(text.len() == s.len() - i);
    assert forall|k: int| 0 <= k < text.len() implies text[k] == #[trigger] s[i + k] by {
        assert(s.skip(i)[k] == s[i + k]);
    }
    if fs.len() == 0 {
        (acc, pending)
    } else {
        let f = fs[0];
        let rest = fs.skip(1);
        assert(is_feature(fs[0]));
        assert forall|k: int| 0 <= k < rest.len() implies is_feature(#[trigger] rest[k]) by {
            assert(rest[k] == fs[k + 1]);
        }
        let n = f.0.len() as int;
        let after = features_text(rest) + tail;
        let code = worth(f.0, 16) as u8;
        lemma_code(f.0);
        assert(text =~= feature_text(f) + after);
        assert forall|k: int| 0 <= k < n implies #[trigger] s[i + k] == f.0[k] by {
            assert(text[k] == f.0[k]);
        }
        assert(s[i + 0] == f.0[0]);
        assert(!ends_token(f.0[0]));
        assert forall|k: int| i <= k < i + n implies !ends_token(#[trigger] s[k]) by {
            assert(s[i + (k - i)] == f.0[k - i]);
        }
        match f.1 {
            None => {
                assert(text[n] == ' ');
                assert(s[i + n] == ' ');
                lemma_token_ends(s, i, i + n);
                assert(s.subrange(i, i + n) =~= f.0);
                let now = listed(acc, pending);
                assert(features_from(s, i, acc, pending) == features_from(
                    s,
                    i + n,
                    now,
                    Some(code),
                ));
                assert(features_from(s, i + n, now, Some(code)) == features_from(
                    s,
                    i + n + 1,
                    now,
                    Some(code),
                ));
                assert(s.skip(i + n + 1) =~= after) by {
                    assert forall|k: int| 0 <= k < after.len() implies s.skip(i + n + 1)[k]
                        == after[k] by {
                        assert(text[n + 1 + k] == after[k]);
                        assert(s[i + (n + 1 + k)] == text[n + 1 + k]);
                    }
                }
                assert(listed(now, Some(code)) == with_feature(now, f));
                lemma_features_read(s, i + n + 1, now, Some(code), rest, tail)
            },
            Some(values) => {
                let inner = joined(values, seq![' ']);
                let m = inner.len() as int;
                let open = i + n;
                let close = i + n + 1 + m;
                lemma_joined_codes(values);
                lemma_codes(values);
                assert(text[n] == '(');
                assert(s[i + n] == '(');
                assert forall|k: int| 0 <= k < m implies #[trigger] inner[k] == s[open + 1 + k] by {
                    assert(text[n + 1 + k] == inner[k]);
                    assert(s[i + (n + 1 + k)] == text[n + 1 + k]);
                }
                assert(text[n + 1 + m] == ')');
                assert(s[i + (n + 1 + m)] == ')');
                assert(text[n + 2 + m] == ' ');
                assert(s[i + (n + 2 + m)] == ' ');
                lemma_token_ends(s, i, i + n);
                assert(s.subrange(i, i + n) =~= f.0);
                let now = listed(acc, pending);
                assert(features_from(s, i, acc, pending) == features_from(
                    s,
                    open,
                    now,
                    Some(code),
                ));
                assert forall|k: int| open < k < close implies #[trigger] s[k] != '(' && s[k]
                    != ')' by {
                    assert(inner[k - open - 1] == s[open + 1 + (k - open - 1)]);
                }
                lemma_closes_flat(s, open, close);
                assert(s.subrange(open + 1, close) =~= inner);
                let bytes = Seq::new(values.len(), |k: int| worth(values[k], 16) as u8);
                let then_acc = now.insert(code, bytes);
                assert(features_from(s, open, now, Some(code)) == features_from(
                    s,
                    close + 1,
                    then_acc,
                    None,
                ));
                assert(features_from(s, close + 1, then_acc, None) == features_from(
                    s,
                    close + 2,
                    then_acc,
                    None,
                ));
                assert(s.skip(close + 2) =~= after) by {
                    assert forall|k: int| 0 <= k < after.len() implies s.skip(close + 2)[k]
                        == after[k] by {
                        assert(text[n + 3 + m + k] == after[k]);
                        assert(s[i + (n + 3 + m + k)] == text[n + 3 + m + k]);
                    }
                }
                assert(with_feature(now, f) == then_acc);
                lemma_features_read(s, close + 2, then_acc, None, rest, tail)
            },
        }
    }
}

/// Whatever features a section lists are read back: each code with the values
/// in its parentheses, and nothing but these.
pub proof fn law_listed_features_are_read_back(
    caps: Seq<char>,
    fs: Seq<(Seq<char>, Option<Seq<Seq<char>>>)>,
)
    requires
        section_of(caps, "vcp"@) == Ok::<Option<Seq<char>>, MccsErrorView>(
            Some(features_text(fs)),
        ),
        forall|k: int| 0 <= k < fs.len() ==> is_feature(#[trigger] fs[k]),
    ensures
        vcp_features(caps) == Ok::<Map<u8, Seq<u8>>, MccsErrorView>(
            features_meant(Map::empty(), fs),
        ),
{
    let s = features_text(fs);
    assert(s.skip(0) =~= s + Seq::empty());
    let (acc, pending) = lemma_features_read(s, 0, Map::empty(), None, fs, Seq::empty());
    assert(features_from(s, s.len() as int, acc, pending) == Ok::<
        Map<u8, Seq<u8>>,
        MccsErrorView,
    >(listed(acc, pending)));
}

/// What is no byte is refused, by name, wherever in the list it stands.
pub proof fn law_what_is_no_byte_is_refused(
    caps: Seq<char>,
    fs: Seq<(Seq<char>, Option<Seq<Seq<char>>>)>,
    bad: Seq<char>,
)
    requires
        section_of(caps, "vcp"@) == Ok::<Option<Seq<char>>, MccsErrorView>(
            Some(features_text(fs) + bad),
        ),
        forall|k: int| 0 <= k < fs.len() ==> is_feature(#[trigger] fs[k]),
        bad.len() > 0,
        forall|k: int| 0 <= k < bad.len() ==> !ends_token(#[trigger] bad[k]),
        bad.len() > 2 || !all_digits(bad, 16),
    ensures
        vcp_features(caps) == Err::<Map<u8, Seq<u8>>, MccsErrorView>(
            MccsErrorView::BadHexByte(bad),
        ),
        input_values(caps) is Err,
{
    let s = features_text(fs) + bad;
    let n = features_text(fs).len() as int;
    assert(s.skip(0) =~= s);
    let (acc, pending) = lemma_features_read(s, 0, Map::empty(), None, fs, bad);
    assert forall|k: int| n <= k < s.len() implies !ends_token(#[trigger] s[k]) by {
        assert(s[k] == bad[k - n]);
    }
    assert(s[n] == bad[0]);
    lemma_token_ends(s, n, s.len() as int);
    assert(s.subrange(n, s.len() as int) =~= bad);
    law_a_byte_is_read_for_its_worth(bad);
}

/// The inputs of a monitor are the values of feature 0x60, and a monitor that
/// does not list that feature has none to tell.
pub proof fn law_inputs_are_the_values_of_feature_60(caps: Seq<char>)
    ensures
        vcp_features(caps) matches Ok(m) ==> {
            &&& m.contains_key(0x60u8) ==> input_values(caps) == Ok::<
                Option<Seq<u8>>,
                MccsErrorView,
            >(Some(m[0x60u8]))
            &&& !m.contains_key(0x60u8) ==> input_values(caps) == Ok::<
                Option<Seq<u8>>,
                MccsErrorView,
            >(None)
        },
        vcp_features(caps) is Err ==> input_values(caps) is Err,
{
}

} // verus!

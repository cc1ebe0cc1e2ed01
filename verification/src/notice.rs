//! What to tell someone when a click did not do what they asked.
//!
//! Silence on success: the screens changing is the answer, and a toast for
//! every switch would be noise. On failure, one line that says why, lifted
//! from the report of the command that failed.

use vstd::prelude::*;
use vstd::slice::slice_subrange;

use crate::digits::{dec, decimal};
use crate::seqs::{first_index, lemma_first_index_here, lemma_first_index_none};
use crate::text::{
    after_prefix, cat2, cat3, chars_of, contains_str, find_from, first_at, has_text, join, joined,
    lemma_after_prefix, occurs_at, opt_piece, pieces, said, said_lines, starts_with_str, string_of, strip_prefix,
    texts, trim, trimmed, words, words_of,
};

verus! {

/// A notification to show.
#[derive(Debug, PartialEq, Eq)]
pub struct Notice {
    pub title: String,
    pub body: String,
}

pub struct NoticeView {
    pub title: Seq<char>,
    pub body: Seq<char>,
}

impl DeepView for Notice {
    type V = NoticeView;

    open spec fn deep_view(&self) -> NoticeView {
        NoticeView { title: self.title@, body: self.body@ }
    }
}

impl Clone for Notice {
    fn clone(&self) -> (r: Self)
        ensures
            r == *self,
    {
        Notice { title: self.title.clone(), body: self.body.clone() }
    }
}

/// Room Windows gives a notification's title, in characters.
pub const TITLE_MAX: usize = 63;

/// Room Windows gives a notification's body, in characters.
pub const BODY_MAX: usize = 255;

// ---------------------------------------------------------------------------
// Clipping
// ---------------------------------------------------------------------------

/// A text of at most `max` characters, the last an ellipsis where some are
/// left out.
pub open spec fn clipped(s: Seq<char>, max: nat) -> Seq<char> {
    if s.len() <= max {
        s
    } else {
        s.take(max - 1).push('…')
    }
}

pub fn clip(s: &str, max: usize) -> (r: String)
    requires
        0 < max,
    ensures
        r@ == clipped(s@, max as nat),
{
    let cs = chars_of(s);
    if cs.len() <= max {
        return s.to_owned();
    }
    let front = slice_subrange(cs.as_slice(), 0, max - 1);
    assert(front@ =~= s@.take(max - 1));
    let mut out = string_of(front);
    out.push('…');
    out
}

/// A notice always fits the room there is for it.
pub open spec fn fits(n: NoticeView) -> bool {
    n.title.len() <= TITLE_MAX && n.body.len() <= BODY_MAX
}

// ---------------------------------------------------------------------------
// Why
// ---------------------------------------------------------------------------

pub open spec fn is_failed_step() -> spec_fn(Seq<char>) -> bool {
    |line: Seq<char>| has_text(line, "-> failed:"@)
}

pub open spec fn is_refusal() -> spec_fn(Seq<char>) -> bool {
    |line: Seq<char>| after_prefix(line, "Refusing"@) is Some
}

pub open spec fn is_error() -> spec_fn(Seq<char>) -> bool {
    |line: Seq<char>| after_prefix(line, "error:"@) is Some
}

/// The place at which a text first stands in another.
pub open spec fn place_of(s: Seq<char>, part: Seq<char>) -> int {
    choose|i: int| first_at(s, part, 0, i)
}

proof fn lemma_place(s: Seq<char>, part: Seq<char>, i: int)
    requires
        first_at(s, part, 0, i),
    ensures
        place_of(s, part) == i,
{
    let j = place_of(s, part);
    assert(first_at(s, part, 0, j));
    assert(occurs_at(s, part, i));
    assert(occurs_at(s, part, j));
}

/// The first word of a text, if it has one.
pub open spec fn first_word(s: Seq<char>) -> Seq<char> {
    let ws = words_of(s);
    if ws.len() == 0 {
        Seq::empty()
    } else {
        ws[0]
    }
}

/// A failed step in short: the monitor, which is the line's first word, and
/// what stands behind the mark of a failure.
pub open spec fn failed_step(line: Seq<char>) -> Seq<char> {
    let at = place_of(line, "-> failed:"@);
    first_word(line.take(at)) + ": "@ + trimmed(line.skip(at + "-> failed:"@.len()))
}

/// What is left of a text once no more prefix can be taken off it.
pub open spec fn behind_prefixes(s: Seq<char>, prefix: Seq<char>) -> Seq<char>
    decreases s.len(),
{
    if prefix.len() == 0 {
        s
    } else {
        match after_prefix(s, prefix) {
            Some(rest) => if rest.len() < s.len() {
                behind_prefixes(rest, prefix)
            } else {
                s
            },
            None => s,
        }
    }
}

pub open spec fn trimmed_lines(ls: Seq<Seq<char>>) -> Seq<Seq<char>> {
    ls.map_values(|l: Seq<char>| trimmed(l))
}

/// The one line of a report that says why: a step that failed, else the line
/// behind a refusal, else an error, else the last line.
pub open spec fn reason_in(ls: Seq<Seq<char>>) -> Seq<char> {
    let failed = first_index(ls, is_failed_step());
    let refused = first_index(ls, is_refusal());
    let wrong = first_index(ls, is_error());
    if failed is Some {
        failed_step(ls[failed->0])
    } else if refused is Some && refused->0 + 1 < ls.len() {
        ls[refused->0 + 1]
    } else if wrong is Some {
        trimmed(behind_prefixes(ls[wrong->0], "error:"@))
    } else if ls.len() > 0 {
        ls.last()
    } else {
        "No details were reported."@
    }
}

pub open spec fn reason_of(output: Seq<char>) -> Seq<char> {
    reason_in(trimmed_lines(said_lines(output)))
}

fn short_step(line: &[char]) -> (r: String)
    requires
        has_text(line@, "-> failed:"@),
    ensures
        r@ == failed_step(line@),
{
    let mark = chars_of("-> failed:");
    match find_from(line, mark.as_slice(), 0) {
        Some(at) => {
            proof {
                lemma_place(line@, mark@, at as int);
            }
            let end: usize = line.len();
            let head = slice_subrange(line, 0, at);
            let why = slice_subrange(line, at + mark.len(), end);
            assert(head@ =~= line@.take(at as int));
            assert(why@ =~= line@.skip(at as int + mark@.len()));
            let ws = words(head);
            let why = string_of(trim(why));
            if ws.len() == 0 {
                assert(pieces(ws@).len() == 0);
                let out = cat2(": ", why.as_str());
                assert(out@ =~= first_word(head@) + ": "@ + why@);
                out
            } else {
                assert(pieces(ws@)[0] == ws@[0]@);
                cat3(string_of(ws[0]).as_str(), ": ", why.as_str())
            }
        },
        None => {
            assert(false);
            String::new()
        },
    }
}

fn strip_prefixes<'a>(s: &'a [char], prefix: &str) -> (r: &'a [char])
    requires
        prefix@.len() > 0,
    ensures
        r@ == behind_prefixes(s@, prefix@),
    decreases s@.len(),
{
    match strip_prefix(s, prefix) {
        Some(rest) => {
            assert(opt_piece(Some(rest)) == after_prefix(s@, prefix@));
            strip_prefixes(rest, prefix)
        },
        None => s,
    }
}

fn reason(output: &str) -> (r: String)
    ensures
        r@ == reason_of(output@),
{
    let cs = chars_of(output);
    let kept = said(cs.as_slice());
    let ghost ls = trimmed_lines(said_lines(output@));
    let count: usize = kept.len();
    assert(forall|k: int| 0 <= k < count ==> trimmed(#[trigger] kept@[k]@) == ls[k]) by {
        assert forall|k: int| 0 <= k < count implies trimmed(#[trigger] kept@[k]@) == ls[k] by {
            assert(pieces(kept@)[k] == kept@[k]@);
        }
    }
    let mut i: usize = 0;
    while i < count
        invariant
            i <= count,
            count == kept@.len(),
            ls.len() == count,
            ls == trimmed_lines(said_lines(output@)),
            forall|k: int| 0 <= k < count ==> trimmed(#[trigger] kept@[k]@) == ls[k],
            forall|k: int| 0 <= k < i ==> !is_failed_step()(#[trigger] ls[k]),
        decreases count - i,
    {
        let line = trim(kept[i]);
        assert(line@ == ls[i as int]);
        if contains_str(line, "-> failed:") {
            proof {
                lemma_first_index_here(ls, is_failed_step(), i as int);
            }
            return short_step(line);
        }
        i += 1;
    }
    proof {
        lemma_first_index_none(ls, is_failed_step());
    }
    let mut found = false;
    let mut i: usize = 0;
    while i < count && !found
        invariant
            i <= count,
            count == kept@.len(),
            ls.len() == count,
            forall|k: int| 0 <= k < count ==> trimmed(#[trigger] kept@[k]@) == ls[k],
            found ==> i < count && is_refusal()(ls[i as int]),
            forall|k: int| 0 <= k < i ==> !is_refusal()(#[trigger] ls[k]),
        decreases count - i + if found { 0int } else { 1 },
    {
        let line = trim(kept[i]);
        assert(line@ == ls[i as int]);
        if starts_with_str(line, "Refusing") {
            found = true;
        } else {
            i += 1;
        }
    }
    proof {
        if found {
            lemma_first_index_here(ls, is_refusal(), i as int);
        } else {
            lemma_first_index_none(ls, is_refusal());
        }
    }
    if found && i + 1 < count {
        assert(trimmed(kept@[i + 1]@) == ls[i + 1]);
        return string_of(trim(kept[i + 1]));
    }
    let mut i: usize = 0;
    while i < count
        invariant
            i <= count,
            count == kept@.len(),
            ls.len() == count,
            ls == trimmed_lines(said_lines(output@)),
            forall|k: int| 0 <= k < count ==> trimmed(#[trigger] kept@[k]@) == ls[k],
            forall|k: int| 0 <= k < i ==> !is_error()(#[trigger] ls[k]),
            first_index(ls, is_failed_step()) is None,
            first_index(ls, is_refusal()) is Some ==> first_index(ls, is_refusal())->0 + 1
                >= count,
        decreases count - i,
    {
        let line = trim(kept[i]);
        assert(line@ == ls[i as int]);
        if starts_with_str(line, "error:") {
            proof {
                lemma_first_index_here(ls, is_error(), i as int);
                reveal_strlit("error:");
            }
            return string_of(trim(strip_prefixes(line, "error:")));
        }
        i += 1;
    }
    proof {
        lemma_first_index_none(ls, is_error());
    }
    if count > 0 {
        assert(trimmed(kept@[count - 1]@) == ls[count - 1]);
        string_of(trim(kept[count - 1]))
    } else {
        "No details were reported.".to_owned()
    }
}

// ---------------------------------------------------------------------------
// Notices
// ---------------------------------------------------------------------------

pub open spec fn notice_of(title: Seq<char>, body: Seq<char>) -> NoticeView {
    NoticeView { title: clipped(title, TITLE_MAX as nat), body: clipped(body, BODY_MAX as nat) }
}

/// What a finished run is titled: nothing for a run that did what was asked.
pub open spec fn run_title(describe: Seq<char>, exit_code: Option<i32>) -> Option<Seq<char>> {
    match exit_code {
        None => Some(describe + ": stopped unexpectedly"@),
        Some(code) => if code == 0 {
            None
        } else if code == 1 {
            Some(describe + ": only partly done"@)
        } else {
            Some(describe + ": did not switch"@)
        },
    }
}

/// A notice for a finished run, or nothing where there is nothing to say.
pub open spec fn run_notice(
    describe: Seq<char>,
    exit_code: Option<i32>,
    output: Seq<char>,
) -> Option<NoticeView> {
    match run_title(describe, exit_code) {
        None => None,
        Some(title) => Some(notice_of(title, reason_of(output))),
    }
}

/// A notice for a finished run, or `None` when there is nothing to say.
///
/// Exit codes: `0` done, `1` partial, `2` refused or failed.
pub fn for_run(describe: &str, exit_code: Option<i32>, output: &str) -> (r: Option<Notice>)
    ensures
        match r {
            Some(n) => run_notice(describe@, exit_code, output@) == Some(n.deep_view()),
            None => run_notice(describe@, exit_code, output@) is None,
        },
{
    let title = match exit_code {
        None => cat2(describe, ": stopped unexpectedly"),
        Some(code) => {
            if code == 0 {
                return None;
            }
            if code == 1 {
                cat2(describe, ": only partly done")
            } else {
                cat2(describe, ": did not switch")
            }
        },
    };
    let why = reason(output);
    Some(Notice { title: clip(title.as_str(), TITLE_MAX), body: clip(why.as_str(), BODY_MAX) })
}

/// The notice when a command could not be started at all.
pub fn cannot_start(describe: &str, why: &str) -> (r: Notice)
    ensures
        r.deep_view() == notice_of(describe@ + ": could not run"@, why@),
{
    Notice {
        title: clip(cat2(describe, ": could not run").as_str(), TITLE_MAX),
        body: clip(why, BODY_MAX),
    }
}

pub open spec fn unavailable_title(n: nat) -> Seq<char> {
    if n == 1 {
        "A hotkey is not available"@
    } else {
        decimal(n) + " hotkeys are not available"@
    }
}

/// The notice when one or more hotkeys could not be registered.
pub fn hotkeys_unavailable(problems: &[String]) -> (r: Notice)
    ensures
        r.deep_view() == notice_of(
            unavailable_title(problems@.len()),
            joined(texts(problems@), "; "@),
        ),
{
    let title = if problems.len() == 1 {
        "A hotkey is not available".to_owned()
    } else {
        cat2(dec(problems.len() as u64).as_str(), " hotkeys are not available")
    };
    let body = join(problems, "; ");
    Notice { title: clip(title.as_str(), TITLE_MAX), body: clip(body.as_str(), BODY_MAX) }
}

// ---------------------------------------------------------------------------
// Buffers
// ---------------------------------------------------------------------------

/// As many units as a buffer of `room` has place for, with a zero behind them.
pub open spec fn filled(units: Seq<u16>, room: int) -> Seq<u16> {
    (if units.len() < room {
        units
    } else {
        units.take(room - 1)
    }).push(0u16)
}

/// The contents of a fixed buffer that holds a text: cut to fit, and always
/// ended by a zero.
pub fn fill(units: &[u16], room: usize) -> (r: Vec<u16>)
    requires
        0 < room,
    ensures
        r@ == filled(units@, room as int),
        r@.len() <= room,
        r@.last() == 0,
{
    let count: usize = if units.len() < room {
        units.len()
    } else {
        room - 1
    };
    let mut out: Vec<u16> = Vec::new();
    let mut i: usize = 0;
    assert(out@ =~= units@.take(0));
    while i < count
        invariant
            i <= count <= units@.len(),
            out@ == units@.take(i as int),
        decreases count - i,
    {
        out.push(units[i]);
        assert(out@ =~= units@.take(i as int + 1));
        i += 1;
    }
    assert(units@.take(units@.len() as int) =~= units@);
    out.push(0);
    out
}

// ---------------------------------------------------------------------------
// Laws
// ---------------------------------------------------------------------------

/// Every notice fits the room Windows gives it, whatever it is about.
pub proof fn law_notices_fit(title: Seq<char>, body: Seq<char>)
    ensures
        fits(notice_of(title, body)),
        title.len() <= TITLE_MAX ==> notice_of(title, body).title == title,
        body.len() <= BODY_MAX ==> notice_of(title, body).body == body,
{
}

/// A run that did what was asked says nothing; any other says something, and
/// gives a reason.
pub proof fn law_only_trouble_is_told(
    describe: Seq<char>,
    exit_code: Option<i32>,
    output: Seq<char>,
)
    ensures
        run_notice(describe, exit_code, output) is None <==> exit_code == Some(0i32),
        run_notice(describe, exit_code, output) matches Some(n) ==> n.title.len() > 0,
        said_lines(output).len() == 0 ==> reason_of(output) == "No details were reported."@,
{
    reveal_strlit(": stopped unexpectedly");
    reveal_strlit(": only partly done");
    reveal_strlit(": did not switch");
    let ls = trimmed_lines(said_lines(output));
    if ls.len() == 0 {
        lemma_first_index_none(ls, is_failed_step());
        lemma_first_index_none(ls, is_refusal());
        lemma_first_index_none(ls, is_error());
    }
}

// ---------------------------------------------------------------------------
// Laws of what is told
// ---------------------------------------------------------------------------

/// A text that is too long keeps its beginning and ends in an ellipsis, just as
/// long as there is room.
pub proof fn law_a_long_text_keeps_its_beginning(s: Seq<char>, max: nat)
    requires
        max > 0,
    ensures
        s.len() <= max ==> clipped(s, max) == s,
        s.len() > max ==> {
            &&& clipped(s, max).len() == max
            &&& clipped(s, max).last() == '\u{2026}'
            &&& forall|i: int| 0 <= i < max - 1 ==> #[trigger] clipped(s, max)[i] == s[i]
        },
{
}

/// A step that failed is told by its first word and by what it failed with, and
/// comes before anything else that was said.
pub proof fn law_a_failed_step_is_told_first(
    ls: Seq<Seq<char>>,
    i: int,
    head: Seq<char>,
    tail: Seq<char>,
)
    requires
        0 <= i < ls.len(),
        forall|j: int| 0 <= j < i ==> !has_text(#[trigger] ls[j], "-> failed:"@),
        ls[i] == head + "-> failed:"@ + tail,
        first_at(ls[i], "-> failed:"@, 0, head.len() as int),
    ensures
        words_of(head).len() > 0 ==> reason_in(ls) == words_of(head)[0] + seq![':', ' '] + trimmed(
            tail,
        ),
{
    let p = is_failed_step();
    assert forall|j: int| 0 <= j < i implies !p(#[trigger] ls[j]) by {}
    assert(occurs_at(ls[i], "-> failed:"@, head.len() as int));
    assert(p(ls[i]));
    lemma_first_index_here(ls, p, i);
    let at = place_of(ls[i], "-> failed:"@);
    assert(first_at(ls[i], "-> failed:"@, 0, at));
    assert(at == head.len());
    assert(ls[i].take(at) =~= head);
    assert(ls[i].skip(at + "-> failed:"@.len()) =~= tail);
    reveal_strlit(": ");
    assert(": "@ =~= seq![':', ' ']);
}

/// Without a failed step, the line behind a refusal is told; without a refusal,
/// what an error says; without an error, the last line.
pub proof fn law_what_went_wrong_is_told(ls: Seq<Seq<char>>, i: int)
    requires
        0 <= i < ls.len(),
        forall|j: int| 0 <= j < ls.len() ==> !has_text(#[trigger] ls[j], "-> failed:"@),
    ensures
        i + 1 < ls.len() && "Refusing"@.is_prefix_of(ls[i]) && (forall|j: int|
            0 <= j < i ==> !"Refusing"@.is_prefix_of(#[trigger] ls[j])) ==> reason_in(ls) == ls[i
            + 1],
        (forall|j: int| 0 <= j < ls.len() ==> !"Refusing"@.is_prefix_of(#[trigger] ls[j])) && (
        forall|j: int| 0 <= j < i ==> !"error:"@.is_prefix_of(#[trigger] ls[j]))
            && "error:"@.is_prefix_of(ls[i]) ==> reason_in(ls) == trimmed(
            behind_prefixes(ls[i], "error:"@),
        ),
        (forall|j: int| 0 <= j < ls.len() ==> !"Refusing"@.is_prefix_of(#[trigger] ls[j])) && (
        forall|j: int| 0 <= j < ls.len() ==> !"error:"@.is_prefix_of(#[trigger] ls[j]))
            ==> reason_in(ls) == ls.last(),
{
    assert forall|j: int| 0 <= j < ls.len() implies !is_failed_step()(#[trigger] ls[j]) by {}
    lemma_first_index_none(ls, is_failed_step());
    assert forall|j: int| 0 <= j < ls.len() implies is_refusal()(#[trigger] ls[j])
        == "Refusing"@.is_prefix_of(ls[j]) by {}
    assert forall|j: int| 0 <= j < ls.len() implies is_error()(#[trigger] ls[j])
        == "error:"@.is_prefix_of(ls[j]) by {}
    if "Refusing"@.is_prefix_of(ls[i]) && (forall|j: int|
        0 <= j < i ==> !"Refusing"@.is_prefix_of(#[trigger] ls[j])) {
        assert forall|j: int| 0 <= j < i implies !is_refusal()(#[trigger] ls[j]) by {}
        lemma_first_index_here(ls, is_refusal(), i);
    }
    if forall|j: int| 0 <= j < ls.len() ==> !"Refusing"@.is_prefix_of(#[trigger] ls[j]) {
        lemma_first_index_none(ls, is_refusal());
        if "error:"@.is_prefix_of(ls[i]) && (forall|j: int|
            0 <= j < i ==> !"error:"@.is_prefix_of(#[trigger] ls[j])) {
            assert forall|j: int| 0 <= j < i implies !is_error()(#[trigger] ls[j]) by {}
            lemma_first_index_here(ls, is_error(), i);
        }
        if forall|j: int| 0 <= j < ls.len() ==> !"error:"@.is_prefix_of(#[trigger] ls[j]) {
            lemma_first_index_none(ls, is_error());
        }
    }
}

/// What is told of an error begins behind its mark, however often that stands
/// there.
pub proof fn law_the_mark_of_an_error_is_taken_off(prefix: Seq<char>, rest: Seq<char>)
    requires
        prefix.len() > 0,
    ensures
        behind_prefixes(prefix + rest, prefix) == behind_prefixes(rest, prefix),
        !prefix.is_prefix_of(rest) ==> behind_prefixes(rest, prefix) == rest,
{
    lemma_after_prefix(prefix, rest);
}

/// The title names what was run, and tells a run that was cut short, one that
/// was partly done and one that did nothing from one another.
pub proof fn law_a_title_says_how_a_run_ended(describe: Seq<char>, code: i32)
    requires
        code != 0,
    ensures
        run_title(describe, Some(0i32)) is None,
        run_title(describe, None) == Some(describe + ": stopped unexpectedly"@),
        code == 1 ==> run_title(describe, Some(code)) == Some(describe + ": only partly done"@),
        code != 1 ==> run_title(describe, Some(code)) == Some(describe + ": did not switch"@),
{
}

/// A buffer holds as much of a text as it has room for, and ends it.
pub proof fn law_a_buffer_ends_what_it_holds(units: Seq<u16>, room: int)
    requires
        room > 0,
    ensures
        filled(units, room).len() <= room,
        filled(units, room).last() == 0,
        filled(units, room).drop_last().is_prefix_of(units),
        units.len() < room ==> filled(units, room).drop_last() == units,
        units.len() >= room ==> filled(units, room).len() == room,
{
    let held = filled(units, room).drop_last();
    assert(units.subrange(0, held.len() as int) =~= held);
}

} // verus!

//! Append-only local event log.
//!
//! Records what was asked for, what was run, and what came back, so a switch
//! that went wrong can be reconstructed afterwards. Monitor serials are
//! recorded because they are the identifiers the tool acts on; nothing else
//! about the user or their machine is.
//!
//! The log makes its lines here and holds them until the program writes them
//! to the file at [`EventLog::path`].

use vstd::prelude::*;

use crate::digits::{
    dec_padded, decimal_padded, law_a_number_is_worth_its_digits,
    law_zeros_before_a_number_add_nothing, worth,
};
use crate::paths::{join_path, joins};
use crate::text::{
    cat2, cat3, cat4, cat5, chars_of, contains_char, has_text, lemma_has_text_between,
    lemma_has_text_within, pieces, quote, quoted_text, said, said_lines, string_of, texts,
};

verus! {

// ---------------------------------------------------------------------------
// The clock
// ---------------------------------------------------------------------------

/// The shape of a UTC time in RFC 3339: the date, a `T`, the time, a `Z`.
pub open spec fn looks_like_rfc3339(t: Seq<char>) -> bool {
    &&& t.len() >= 20
    &&& t[4] == '-' && t[7] == '-' && t[10] == 'T' && t[13] == ':' && t[16] == ':'
    &&& t.last() == 'Z'
}

/// Calls `time::OffsetDateTime::now_utc` and formats the result with `format`
/// as `Rfc3339`. Which time it is depends on the clock. The format writes four
/// digits, two and two with dashes between, `T`, two and two and two with
/// colons between, a fraction if there is one, and `Z` for a UTC time.
#[verifier::external_body]
fn utc_now_text() -> (r: Option<String>)
    ensures
        r matches Some(t) ==> looks_like_rfc3339(t@),
{
    time::OffsetDateTime::now_utc().format(&time::format_description::well_known::Rfc3339).ok()
}

/// Calls `time::OffsetDateTime::now_utc` and takes its `year`, `month` and
/// `day`. Which day it is depends on the clock; a month is between 1 and 12, a
/// day between 1 and 31.
#[verifier::external_body]
fn utc_today() -> (r: (i32, u8, u8))
    ensures
        1 <= r.1 <= 12,
        1 <= r.2 <= 31,
{
    let now = time::OffsetDateTime::now_utc();
    (now.year(), u8::from(now.month()), now.day())
}

/// Calls `std::time::SystemTime::duration_since` on the present time with the
/// Unix epoch, in whole milliseconds. `None` when the clock stands before it.
#[verifier::external_body]
fn millis_since_epoch() -> (r: Option<u128>) {
    std::time::SystemTime::now().duration_since(std::time::UNIX_EPOCH).ok().map(
        |d| d.as_millis(),
    )
}

/// A formatted time, or what stands for one that could not be formatted.
pub fn time_or_unknown(formatted: Option<String>) -> (r: String)
    ensures
        r@ == (match formatted {
            Some(t) => t@,
            None => "unknown-time"@,
        }),
{
    match formatted {
        Some(t) => t,
        None => "unknown-time".to_owned(),
    }
}

/// Current UTC time as an RFC 3339 string.
pub fn now_rfc3339() -> (r: String)
    ensures
        looks_like_rfc3339(r@) || r@ == "unknown-time"@,
{
    time_or_unknown(utc_now_text())
}

/// A year in at least four places, its sign among them.
pub open spec fn year_text(year: int) -> Seq<char> {
    if year >= 0 {
        decimal_padded(year as nat, 4)
    } else {
        "-"@ + decimal_padded((-year) as nat, 3)
    }
}

/// `YYYY-MM-DD`.
pub open spec fn date_text(year: int, month: nat, day: nat) -> Seq<char> {
    year_text(year) + "-"@ + decimal_padded(month, 2) + "-"@ + decimal_padded(day, 2)
}

/// A date as `YYYY-MM-DD`.
pub fn date_string(year: i32, month: u8, day: u8) -> (r: String)
    ensures
        r@ == date_text(year as int, month as nat, day as nat),
{
    let y: String = if year >= 0 {
        dec_padded(year as u32, 4)
    } else {
        let positive: u32 = (-(year as i64)) as u32;
        let digits = dec_padded(positive, 3);
        cat2("-", digits.as_str())
    };
    let m = dec_padded(month as u32, 2);
    let d = dec_padded(day as u32, 2);
    cat5(y.as_str(), "-", m.as_str(), "-", d.as_str())
}

/// Today as `YYYY-MM-DD`, for stamping verification dates.
pub fn today() -> (r: String)
    ensures
        exists|year: int, month: nat, day: nat|
            1 <= month <= 12 && 1 <= day <= 31 && r@ == #[trigger] date_text(year, month, day),
{
    let (year, month, day) = utc_today();
    let r = date_string(year, month, day);
    assert(r@ == date_text(year as int, month as nat, day as nat));
    r
}

/// Milliseconds since the Unix epoch, as far as they fit. A clock before the
/// epoch counts as standing at it.
pub open spec fn capped(since: Option<u128>) -> int {
    match since {
        Some(ms) => if ms <= u64::MAX {
            ms as int
        } else {
            u64::MAX as int
        },
        None => 0,
    }
}

pub fn capped_millis(since_epoch: Option<u128>) -> (r: u64)
    ensures
        r == capped(since_epoch),
{
    match since_epoch {
        Some(ms) => if ms <= u64::MAX as u128 {
            ms as u64
        } else {
            u64::MAX
        },
        None => 0,
    }
}

/// The present time in milliseconds since the Unix epoch. Which time that is
/// depends on the clock.
pub fn now_unix_ms() -> (r: u64)
    ensures
        exists|since: Option<u128>| r == #[trigger] capped(since),
{
    let since = millis_since_epoch();
    let r = capped_millis(since);
    assert(r == capped(since));
    r
}

// ---------------------------------------------------------------------------
// Lines
// ---------------------------------------------------------------------------

/// Whether a value has to be quoted for the line to stay parseable.
pub open spec fn needs_quotes(v: Seq<char>) -> bool {
    v.len() == 0 || v.contains(' ') || v.contains('"')
}

pub open spec fn value_text(v: Seq<char>) -> Seq<char> {
    if needs_quotes(v) {
        quoted_text(v)
    } else {
        v
    }
}

pub open spec fn fields_text(fields: Seq<(Seq<char>, Seq<char>)>) -> Seq<char>
    decreases fields.len(),
{
    if fields.len() == 0 {
        Seq::empty()
    } else {
        let (k, v) = fields.last();
        fields_text(fields.drop_last()) + (" "@ + k + "="@ + value_text(v))
    }
}

/// One line of the log.
pub open spec fn event_line(
    stamp: Seq<char>,
    kind: Seq<char>,
    fields: Seq<(Seq<char>, Seq<char>)>,
) -> Seq<char> {
    stamp + " "@ + kind + fields_text(fields) + "\n"@
}

pub open spec fn fields_view(fields: Seq<(&str, String)>) -> Seq<(Seq<char>, Seq<char>)> {
    fields.map_values(|f: (&str, String)| (f.0@, f.1@))
}

/// A value as it stands in a line, given how it is quoted.
pub fn value_string(v: &str, quoted: String) -> (r: String)
    ensures
        r@ == (if needs_quotes(v@) {
            quoted@
        } else {
            v@
        }),
{
    let cs = chars_of(v);
    if cs.len() == 0 || contains_char(cs.as_slice(), ' ') || contains_char(cs.as_slice(), '"') {
        quoted
    } else {
        v.to_owned()
    }
}

/// One line of the log, at a given time.
pub fn line_at(stamp: &str, kind: &str, fields: &[(&str, String)]) -> (r: String)
    ensures
        r@ == event_line(stamp@, kind@, fields_view(fields@)),
{
    let ghost fs = fields_view(fields@);
    let mut out: String = String::new();
    let mut i: usize = 0;
    assert(fs.take(0) =~= Seq::empty());
    assert(out@ =~= Seq::<char>::empty());
    while i < fields.len()
        invariant
            i <= fields.len(),
            fs == fields_view(fields@),
            out@ == fields_text(fs.take(i as int)),
        decreases fields.len() - i,
    {
        let f = &fields[i];
        let quoted = quote(f.1.as_str());
        let v = value_string(f.1.as_str(), quoted);
        proof {
            let next = fs.take(i as int + 1);
            assert(next.drop_last() =~= fs.take(i as int));
            assert(next.last() == fs[i as int]);
            assert(fs[i as int] == (f.0@, f.1@));
        }
        let part = cat4(" ", f.0, "=", v.as_str());
        out = cat2(out.as_str(), part.as_str());
        i += 1;
    }
    assert(fs.take(fs.len() as int) =~= fs);
    let head = cat3(stamp, " ", kind);
    cat3(head.as_str(), out.as_str(), "\n")
}

// ---------------------------------------------------------------------------
// The log
// ---------------------------------------------------------------------------

#[derive(Debug)]
pub struct EventLog {
    path: String,
    enabled: bool,
    pending: Vec<String>,
}

/// A log took an event at some time, unless it is disabled. Nothing else about
/// it changed.
pub open spec fn took(
    before: EventLog,
    after: EventLog,
    kind: Seq<char>,
    fields: Seq<(Seq<char>, Seq<char>)>,
) -> bool {
    &&& after.file() == before.file()
    &&& after.is_enabled() == before.is_enabled()
    &&& if before.is_enabled() {
        exists|stamp: Seq<char>|
            (looks_like_rfc3339(stamp) || stamp == "unknown-time"@) && after.unwritten()
                == before.unwritten().push(#[trigger] event_line(stamp, kind, fields))
    } else {
        after.unwritten() == before.unwritten()
    }
}

impl EventLog {
    /// Where the log's file is.
    pub closed spec fn file(&self) -> Seq<char> {
        self.path@
    }

    pub closed spec fn is_enabled(&self) -> bool {
        self.enabled
    }

    /// The lines that are not in the file yet, oldest first.
    pub closed spec fn unwritten(&self) -> Seq<Seq<char>> {
        texts(self.pending@)
    }

    pub fn at(path: String) -> (r: Self)
        ensures
            r.file() == path@,
            r.is_enabled(),
            r.unwritten() == Seq::<Seq<char>>::empty(),
    {
        let pending: Vec<String> = Vec::new();
        assert(texts(pending@) =~= Seq::<Seq<char>>::empty());
        EventLog { path, enabled: true, pending }
    }

    /// A log that silently discards everything, for dry runs and tests.
    pub fn disabled() -> (r: Self)
        ensures
            r.file() == Seq::<char>::empty(),
            !r.is_enabled(),
            r.unwritten() == Seq::<Seq<char>>::empty(),
    {
        let path = String::new();
        assert(path@ =~= Seq::<char>::empty());
        let pending: Vec<String> = Vec::new();
        assert(texts(pending@) =~= Seq::<Seq<char>>::empty());
        EventLog { path, enabled: false, pending }
    }

    pub fn in_dir(dir: &str) -> (r: Self)
        ensures
            joins(r.file(), dir@, "events.log"@),
            r.is_enabled(),
            r.unwritten() == Seq::<Seq<char>>::empty(),
    {
        proof {
            reveal_strlit(".");
            reveal_strlit("..");
            reveal_strlit("events.log");
        }
        EventLog::at(join_path(dir, "events.log"))
    }

    pub fn path(&self) -> (r: &str)
        ensures
            r@ == self.file(),
    {
        self.path.as_str()
    }

    /// Append one event. A disabled log takes nothing.
    pub fn append(&mut self, kind: &str, fields: &[(&str, String)])
        ensures
            took(*old(self), *final(self), kind@, fields_view(fields@)),
    {
        if !self.enabled {
            return ;
        }
        let stamp = now_rfc3339();
        let line = line_at(stamp.as_str(), kind, fields);
        let ghost before = self.pending@;
        self.pending.push(line);
        proof {
            assert(texts(self.pending@) =~= texts(before).push(line@));
            assert(line@ == event_line(stamp@, kind@, fields_view(fields@)));
        }
    }

    /// Hands over the lines that are not in the file yet.
    pub fn take_pending(&mut self) -> (r: Vec<String>)
        ensures
            texts(r@) == old(self).unwritten(),
            final(self).unwritten() == Seq::<Seq<char>>::empty(),
            final(self).file() == old(self).file(),
            final(self).is_enabled() == old(self).is_enabled(),
    {
        let mut out: Vec<String> = Vec::new();
        out.append(&mut self.pending);
        assert(texts(out@) =~= old(self).unwritten());
        assert(self.unwritten() =~= Seq::<Seq<char>>::empty());
        out
    }
}

/// The last `n` of some lines, or all of them if there are fewer.
pub open spec fn last_of(all: Seq<Seq<char>>, n: nat) -> Seq<Seq<char>> {
    if n <= all.len() {
        all.skip(all.len() - n)
    } else {
        all
    }
}

/// The last `n` lines of a log's text that are not blank, newest last.
pub fn last_lines(text: &str, n: usize) -> (r: Vec<String>)
    ensures
        texts(r@) == last_of(said_lines(text@), n as nat),
{
    let cs = chars_of(text);
    let kept = said(cs.as_slice());
    let ghost whole = pieces(kept@);
    let mut out: Vec<String> = Vec::new();
    let mut j: usize = if n <= kept.len() {
        kept.len() - n
    } else {
        0
    };
    let ghost start = j as int;
    assert(texts(out@) =~= whole.subrange(start, start));
    while j < kept.len()
        invariant
            start <= j <= kept.len(),
            whole == pieces(kept@),
            0 <= start,
            texts(out@) == whole.subrange(start, j as int),
        decreases kept.len() - j,
    {
        let ghost before = out@;
        out.push(string_of(kept[j]));
        assert(texts(out@) =~= texts(before).push(whole[j as int]));
        assert(whole.subrange(start, j as int + 1) =~= whole.subrange(start, j as int).push(
            whole[j as int],
        ));
        j += 1;
    }
    assert(texts(out@) =~= last_of(whole, n as nat));
    out
}

// ---------------------------------------------------------------------------
// Laws of the log
// ---------------------------------------------------------------------------

/// A date is its year, month and day in as many digits as they take, at least
/// four, two and two, with hyphens between.
pub proof fn law_a_date_is_worth_its_parts(year: nat, month: nat, day: nat)
    requires
        year <= 9999,
        month <= 99,
        day <= 99,
    ensures
        ({
            let t = date_text(year as int, month, day);
            &&& t.len() == 10
            &&& t[4] == '-' && t[7] == '-'
            &&& worth(t.subrange(0, 4), 10) == year
            &&& worth(t.subrange(5, 7), 10) == month
            &&& worth(t.subrange(8, 10), 10) == day
        }),
{
    reveal_strlit("-");
    lemma_padded_worth(year, 4);
    lemma_padded_worth(month, 2);
    lemma_padded_worth(day, 2);
    let t = date_text(year as int, month, day);
    assert(t.subrange(0, 4) =~= decimal_padded(year, 4));
    assert(t.subrange(5, 7) =~= decimal_padded(month, 2));
    assert(t.subrange(8, 10) =~= decimal_padded(day, 2));
}

proof fn lemma_padded_worth(n: nat, width: nat)
    requires
        width == 4 && n <= 9999 || width == 2 && n <= 99,
    ensures
        decimal_padded(n, width).len() == width,
        worth(decimal_padded(n, width), 10) == n,
{
    law_a_number_is_worth_its_digits(n, 10);
    law_zeros_before_a_number_add_nothing(crate::digits::decimal(n), width, 10);
    reveal_with_fuel(crate::digits::numeral, 5);
}

/// A line begins with its moment and kind, ends the line, and holds every field
/// as its name, an equals sign and its value.
pub proof fn law_a_line_holds_every_field(
    stamp: Seq<char>,
    kind: Seq<char>,
    fields: Seq<(Seq<char>, Seq<char>)>,
    i: int,
)
    requires
        0 <= i < fields.len(),
    ensures
        (stamp + seq![' '] + kind).is_prefix_of(event_line(stamp, kind, fields)),
        event_line(stamp, kind, fields).last() == '\n',
        has_text(
            event_line(stamp, kind, fields),
            seq![' '] + fields[i].0 + seq!['='] + value_text(fields[i].1),
        ),
{
    reveal_strlit(" ");
    reveal_strlit("\n");
    assert(" "@ =~= seq![' ']);
    lemma_has_field(fields, i);
    let line = event_line(stamp, kind, fields);
    let start = stamp + " "@ + kind;
    assert(line.subrange(0, start.len() as int) =~= start);
    lemma_has_text_within(
        start,
        fields_text(fields),
        "\n"@,
        seq![' '] + fields[i].0 + seq!['='] + value_text(fields[i].1),
    );
}

proof fn lemma_has_field(fields: Seq<(Seq<char>, Seq<char>)>, i: int)
    requires
        0 <= i < fields.len(),
    ensures
        has_text(
            fields_text(fields),
            seq![' '] + fields[i].0 + seq!['='] + value_text(fields[i].1),
        ),
    decreases fields.len(),
{
    reveal_strlit(" ");
    reveal_strlit("=");
    assert(" "@ =~= seq![' ']);
    assert("="@ =~= seq!['=']);
    let front = fields.drop_last();
    let (k, v) = fields.last();
    let told = " "@ + k + "="@ + value_text(v);
    if i == fields.len() - 1 {
        lemma_has_text_between(fields_text(front), told, Seq::empty());
    } else {
        lemma_has_field(front, i);
        assert(front[i] == fields[i]);
        lemma_has_text_within(
            Seq::empty(),
            fields_text(front),
            told,
            seq![' '] + fields[i].0 + seq!['='] + value_text(fields[i].1),
        );
    }
}

/// A value stands as it is exactly where it can be told from what is round it:
/// it is not empty and holds neither a blank nor a quotation mark.
pub proof fn law_a_plain_value_stands_as_it_is(v: Seq<char>)
    ensures
        needs_quotes(v) <==> v.len() == 0 || exists|i: int|
            0 <= i < v.len() && (#[trigger] v[i] == ' ' || v[i] == '"'),
        !needs_quotes(v) ==> value_text(v) == v,
{
    if v.contains(' ') {
        let i = choose|i: int| 0 <= i < v.len() && v[i] == ' ';
        assert(v[i] == ' ');
    }
    if v.contains('"') {
        let i = choose|i: int| 0 <= i < v.len() && v[i] == '"';
        assert(v[i] == '"');
    }
}

/// The newest lines are the last ones, as many as were asked for, in order.
pub proof fn law_the_newest_lines_are_the_last(all: Seq<Seq<char>>, n: nat)
    ensures
        last_of(all, n).len() == if n <= all.len() {
            n
        } else {
            all.len()
        },
        forall|i: int|
            0 <= i < last_of(all, n).len() ==> #[trigger] last_of(all, n)[i] == all[all.len()
                - last_of(all, n).len() + i],
{
}

/// A time is counted in milliseconds as far as a counter goes, and as nought
/// where it is not known.
pub proof fn law_a_time_is_capped(since: Option<u128>)
    ensures
        since matches Some(ms) ==> (ms <= 0xffff_ffff_ffff_ffff ==> capped(since) == ms) && (ms
            > 0xffff_ffff_ffff_ffff ==> capped(since) == 0xffff_ffff_ffff_ffff),
        since is None ==> capped(since) == 0,
{
}

} // verus!

//! Parsers for `PowerToys.PowerDisplay.Cli.exe` output.
//!
//! Every parser here is strict. If the text does not look like what the tested
//! version prints, it returns an error rather than a best guess, because the
//! consequence of a misparse is writing an input code to the wrong display.

use vstd::prelude::*;
use vstd::slice::slice_subrange;

use crate::digits::{
    all_digits, dec, decimal, digit_worth, hex_padded, law_a_number_is_worth_its_digits,
    law_digits_are_read_for_their_worth, law_zeros_before_a_number_add_nothing, number_error_text,
    parse_unsigned, unsigned_value, worth,
};
use crate::powertoys::TESTED_VERSION;
use crate::runner::options_view;
use crate::text::{
    cat2, cat4, chars_of, copy_opt, cut_out, find_from, first_at, has_text, last_place,
    law_a_text_is_trimmed_one_way, law_a_text_splits_at_a_separator,
    law_a_text_without_separator_is_whole, law_signs_are_no_white_space,
    law_the_last_place_has_none_behind, law_trimming_leaves_the_text, lines, lines_of, occurs_at,
    opt_text, pieces, quote, quoted_text, repeated, rfind_char, said, said_lines, same, same_chars,
    split_char, split_on, starts_with_str, string_of, strip_prefix, trim, trim_start, trimmed,
    trimmed_start, white_space,
};
use crate::types::{
    code_in, code_text, law_a_code_is_written_for_its_worth, law_code_text_reads_back, InputCode,
    InputCodeParseErrorView,
};

verus! {

#[derive(Debug, PartialEq, Eq)]
pub enum ParseError {
    ListHeader(String),
    ListRow { row: String, detail: String },
    MissingMonitorHeader(String),
    BadInputCode(String),
    MissingVcpSection,
}

pub enum ParseErrorView {
    ListHeader(Seq<char>),
    ListRow { row: Seq<char>, detail: Seq<char> },
    MissingMonitorHeader(Seq<char>),
    BadInputCode(Seq<char>),
    MissingVcpSection,
}

impl DeepView for ParseError {
    type V = ParseErrorView;

    open spec fn deep_view(&self) -> ParseErrorView {
        match self {
            ParseError::ListHeader(s) => ParseErrorView::ListHeader(s@),
            ParseError::ListRow { row, detail } => ParseErrorView::ListRow {
                row: row@,
                detail: detail@,
            },
            ParseError::MissingMonitorHeader(s) => ParseErrorView::MissingMonitorHeader(s@),
            ParseError::BadInputCode(s) => ParseErrorView::BadInputCode(s@),
            ParseError::MissingVcpSection => ParseErrorView::MissingVcpSection,
        }
    }
}

impl Clone for ParseError {
    fn clone(&self) -> (r: Self)
        ensures
            r == *self,
    {
        match self {
            ParseError::ListHeader(s) => ParseError::ListHeader(s.clone()),
            ParseError::ListRow { row, detail } => ParseError::ListRow {
                row: row.clone(),
                detail: detail.clone(),
            },
            ParseError::MissingMonitorHeader(s) => ParseError::MissingMonitorHeader(s.clone()),
            ParseError::BadInputCode(s) => ParseError::BadInputCode(s.clone()),
            ParseError::MissingVcpSection => ParseError::MissingVcpSection,
        }
    }
}

impl ParseErrorView {
    pub open spec fn message(self) -> Seq<char> {
        match self {
            ParseErrorView::ListHeader(s) => "unrecognised `list` header: "@ + quoted_text(s)
                + ". This build was tested against PowerToys "@ + TESTED_VERSION@
                + "; the CLI output format may have changed."@,
            ParseErrorView::ListRow { row, detail } => "could not parse `list` row "@
                + quoted_text(row) + ": "@ + detail,
            ParseErrorView::MissingMonitorHeader(s) => {
                "`get` output did not start with a `Monitor N` header: "@ + quoted_text(s)
            },
            ParseErrorView::BadInputCode(s) => "could not read an input code from "@ + quoted_text(
                s,
            ),
            ParseErrorView::MissingVcpSection => {
                "capabilities output contained no `VCP codes:` section"@
            },
        }
    }
}

impl ParseError {
    pub fn to_string(&self) -> (r: String)
        ensures
            r@ == self.deep_view().message(),
    {
        match self {
            ParseError::ListHeader(s) => crate::text::cat5(
                "unrecognised `list` header: ",
                quote(s.as_str()).as_str(),
                ". This build was tested against PowerToys ",
                TESTED_VERSION,
                "; the CLI output format may have changed.",
            ),
            ParseError::ListRow { row, detail } => cat4(
                "could not parse `list` row ",
                quote(row.as_str()).as_str(),
                ": ",
                detail.as_str(),
            ),
            ParseError::MissingMonitorHeader(s) => cat2(
                "`get` output did not start with a `Monitor N` header: ",
                quote(s.as_str()).as_str(),
            ),
            ParseError::BadInputCode(s) => cat2(
                "could not read an input code from ",
                quote(s.as_str()).as_str(),
            ),
            ParseError::MissingVcpSection => {
                "capabilities output contained no `VCP codes:` section".to_owned()
            },
        }
    }
}

// ---------------------------------------------------------------------------
// list
// ---------------------------------------------------------------------------

/// One row of `PowerToys.PowerDisplay.Cli.exe list`.
#[derive(Debug, PartialEq, Eq)]
pub struct ListRow {
    pub number: u32,
    /// Blank for the internal panel on the tested version.
    pub name: Option<String>,
    /// `DDC/CI` or `WMI`.
    pub method: String,
    /// DevicePath-derived stable id.
    pub id: String,
    pub raw: String,
}

pub struct ListRowView {
    pub number: u32,
    pub name: Option<Seq<char>>,
    pub method: Seq<char>,
    pub id: Seq<char>,
    pub raw: Seq<char>,
}

impl DeepView for ListRow {
    type V = ListRowView;

    open spec fn deep_view(&self) -> ListRowView {
        ListRowView {
            number: self.number,
            name: opt_text(self.name),
            method: self.method@,
            id: self.id@,
            raw: self.raw@,
        }
    }
}

impl Clone for ListRow {
    fn clone(&self) -> (r: Self)
        ensures
            r.deep_view() == self.deep_view(),
    {
        ListRow {
            number: self.number,
            name: copy_opt(&self.name),
            method: self.method.clone(),
            id: self.id.clone(),
            raw: self.raw.clone(),
        }
    }
}

/// The cells of a row.
pub open spec fn columns(line: Seq<char>) -> Seq<Seq<char>> {
    split_on(line, '|').map_values(|c: Seq<char>| trimmed(c))
}

pub open spec fn list_columns() -> Seq<Seq<char>> {
    seq!["#"@, "Name"@, "Method"@, "Monitor ID"@]
}

pub open spec fn bad_row(line: Seq<char>, detail: Seq<char>) -> ParseErrorView {
    ParseErrorView::ListRow { row: line, detail }
}

/// What a row says.
pub open spec fn row_of(line: Seq<char>) -> Result<ListRowView, ParseErrorView> {
    let cols = columns(line);
    if cols.len() != 4 {
        Err(bad_row(line, "expected 4 columns, found "@ + decimal(cols.len())))
    } else {
        match unsigned_value(cols[0], 10, u32::MAX as nat) {
            Err(e) => Err(bad_row(line, "monitor number: "@ + number_error_text(e))),
            Ok(n) => if cols[3].len() == 0 {
                Err(bad_row(line, "monitor id is empty"@))
            } else {
                Ok(
                    ListRowView {
                        number: n as u32,
                        name: if cols[1].len() > 0 {
                            Some(cols[1])
                        } else {
                            None
                        },
                        method: cols[2],
                        id: cols[3],
                        raw: line,
                    },
                )
            },
        }
    }
}

/// What rows say; the first that cannot be read ends the reading.
pub open spec fn rows_of(ls: Seq<Seq<char>>) -> Result<Seq<ListRowView>, ParseErrorView>
    decreases ls.len(),
{
    if ls.len() == 0 {
        Ok(Seq::empty())
    } else {
        match rows_of(ls.drop_last()) {
            Err(e) => Err(e),
            Ok(rows) => match row_of(ls.last()) {
                Ok(row) => Ok(rows.push(row)),
                Err(e) => Err(e),
            },
        }
    }
}

/// What a list says.
pub open spec fn list_of(stdout: Seq<char>) -> Result<Seq<ListRowView>, ParseErrorView> {
    let ls = said_lines(stdout);
    if ls.len() == 0 {
        Err(ParseErrorView::ListHeader(Seq::empty()))
    } else if columns(ls[0]) != list_columns() {
        Err(ParseErrorView::ListHeader(ls[0]))
    } else {
        rows_of(ls.skip(1))
    }
}

fn cells(line: &[char]) -> (r: Vec<&[char]>)
    ensures
        pieces(r@) == columns(line@),
{
    let parts = split_char(line, '|');
    let ghost want = columns(line@);
    let mut out: Vec<&[char]> = Vec::new();
    let mut i: usize = 0;
    assert(pieces(out@) =~= want.take(0));
    while i < parts.len()
        invariant
            i <= parts.len(),
            want == pieces(parts@).map_values(|c: Seq<char>| trimmed(c)),
            pieces(out@) == want.take(i as int),
        decreases parts.len() - i,
    {
        let ghost before = out@;
        out.push(trim(parts[i]));
        assert(pieces(parts@)[i as int] == parts@[i as int]@);
        assert(pieces(out@) =~= pieces(before).push(want[i as int]));
        assert(want.take(i as int + 1) =~= want.take(i as int).push(want[i as int]));
        i += 1;
    }
    assert(want.take(want.len() as int) =~= want);
    out
}

fn is_text(cs: &[char], s: &str) -> (r: bool)
    ensures
        r == (cs@ == s@),
{
    let other = chars_of(s);
    same_chars(cs, other.as_slice())
}

fn is_header(line: &[char]) -> (r: bool)
    ensures
        r == (columns(line@) == list_columns()),
{
    let cols = cells(line);
    let ghost ps = pieces(cols@);
    if cols.len() != 4 {
        assert(ps.len() != list_columns().len());
        return false;
    }
    let r = is_text(cols[0], "#") && is_text(cols[1], "Name") && is_text(cols[2], "Method")
        && is_text(cols[3], "Monitor ID");
    proof {
        assert(ps[0] == cols@[0]@ && ps[1] == cols@[1]@ && ps[2] == cols@[2]@ && ps[3]
            == cols@[3]@);
        let want = list_columns();
        if r {
            assert(ps =~= want);
        } else {
            assert(ps[0] != want[0] || ps[1] != want[1] || ps[2] != want[2] || ps[3] != want[3]);
        }
    }
    r
}

pub open spec fn row_result(r: Result<ListRow, ParseError>) -> Result<ListRowView, ParseErrorView> {
    match r {
        Ok(row) => Ok(row.deep_view()),
        Err(e) => Err(e.deep_view()),
    }
}

fn read_row(line: &[char]) -> (r: Result<ListRow, ParseError>)
    ensures
        row_result(r) == row_of(line@),
{
    let cols = cells(line);
    let ghost ps = pieces(cols@);
    if cols.len() != 4 {
        return Err(
            ParseError::ListRow {
                row: string_of(line),
                detail: cat2("expected 4 columns, found ", dec(cols.len() as u64).as_str()),
            },
        );
    }
    assert(ps[0] == cols@[0]@ && ps[1] == cols@[1]@ && ps[2] == cols@[2]@ && ps[3] == cols@[3]@);
    let number: u32 = match parse_unsigned(cols[0], 10, u32::MAX) {
        Ok(n) => n,
        Err(e) => {
            return Err(
                ParseError::ListRow {
                    row: string_of(line),
                    detail: cat2("monitor number: ", e.text()),
                },
            );
        },
    };
    if cols[3].len() == 0 {
        return Err(
            ParseError::ListRow {
                row: string_of(line),
                detail: "monitor id is empty".to_owned(),
            },
        );
    }
    Ok(
        ListRow {
            number,
            name: if cols[1].len() > 0 {
                Some(string_of(cols[1]))
            } else {
                None
            },
            method: string_of(cols[2]),
            id: string_of(cols[3]),
            raw: string_of(line),
        },
    )
}

/// What cannot be read stays so, whatever follows.
proof fn lemma_rows_fail(ls: Seq<Seq<char>>, n: int)
    requires
        0 <= n <= ls.len(),
        rows_of(ls.take(n)) is Err,
    ensures
        rows_of(ls) == rows_of(ls.take(n)),
    decreases ls.len(),
{
    if n == ls.len() {
        assert(ls.take(n) =~= ls);
    } else {
        assert(ls.drop_last().take(n) =~= ls.take(n));
        lemma_rows_fail(ls.drop_last(), n);
    }
}

pub fn parse_list(stdout: &str) -> (r: Result<Vec<ListRow>, ParseError>)
    ensures
        match r {
            Ok(v) => list_of(stdout@) == Ok::<Seq<ListRowView>, ParseErrorView>(v.deep_view()),
            Err(e) => list_of(stdout@) == Err::<Seq<ListRowView>, ParseErrorView>(e.deep_view()),
        },
{
    let cs = chars_of(stdout);
    let all = said(cs.as_slice());
    let ghost ls = said_lines(stdout@);
    if all.len() == 0 {
        let none = String::new();
        assert(none@ =~= Seq::<char>::empty());
        return Err(ParseError::ListHeader(none));
    }
    assert(ls[0] == all@[0]@);
    if !is_header(all[0]) {
        return Err(ParseError::ListHeader(string_of(all[0])));
    }
    let ghost rest = ls.skip(1);
    let mut rows: Vec<ListRow> = Vec::new();
    let mut i: usize = 1;
    assert(rest.take(0) =~= Seq::<Seq<char>>::empty());
    assert(rows.deep_view() =~= Seq::<ListRowView>::empty());
    while i < all.len()
        invariant
            1 <= i <= all.len(),
            ls == pieces(all@),
            rest == ls.skip(1),
            list_of(stdout@) == rows_of(rest),
            rows_of(rest.take(i - 1)) == Ok::<Seq<ListRowView>, ParseErrorView>(rows.deep_view()),
        decreases all.len() - i,
    {
        proof {
            let next = rest.take(i as int);
            assert(next.drop_last() =~= rest.take(i - 1));
            assert(next.last() == all@[i as int]@);
        }
        match read_row(all[i]) {
            Ok(row) => {
                let ghost before = rows.deep_view();
                let ghost rv = row.deep_view();
                rows.push(row);
                assert(rows.deep_view() =~= before.push(rv));
            },
            Err(e) => {
                proof {
                    lemma_rows_fail(rest, i as int);
                }
                return Err(e);
            },
        }
        i += 1;
    }
    assert(rest.take(rest.len() as int) =~= rest);
    Ok(rows)
}

// ---------------------------------------------------------------------------
// Labels and codes
// ---------------------------------------------------------------------------

/// `HDMI-1 (0x11)` as its label and code: what stands before the last opening
/// bracket, and what stands between it and the last closing one.
pub open spec fn label_and_code(entry: Seq<char>) -> Option<(Seq<char>, InputCode)> {
    match (last_place(entry, '('), last_place(entry, ')')) {
        (Some(open), Some(close)) => if close < open {
            None
        } else {
            match code_in(trimmed(entry.subrange(open + 1, close))) {
                Ok(code) => Some((trimmed(entry.take(open)), code)),
                Err(_) => None,
            }
        },
        _ => None,
    }
}

proof fn lemma_last_place(s: Seq<char>, c: char)
    ensures
        last_place(s, c) matches Some(i) ==> 0 <= i < s.len() && s[i] == c,
    decreases s.len(),
{
    if s.len() > 0 && s.last() != c {
        lemma_last_place(s.drop_last(), c);
    }
}

/// Split `HDMI-1 (0x11)` into its label and code.
pub fn split_label_and_code(entry: &[char]) -> (r: Option<(String, InputCode)>)
    ensures
        match r {
            Some((label, code)) => label_and_code(entry@) == Some((label@, code)),
            None => label_and_code(entry@) is None,
        },
{
    let open: usize = match rfind_char(entry, '(') {
        Some(i) => i,
        None => {
            return None;
        },
    };
    let close: usize = match rfind_char(entry, ')') {
        Some(i) => i,
        None => {
            return None;
        },
    };
    proof {
        lemma_last_place(entry@, '(');
        lemma_last_place(entry@, ')');
    }
    if close < open {
        return None;
    }
    let inner = trim(slice_subrange(entry, open + 1, close));
    let label = trim(slice_subrange(entry, 0, open));
    assert(entry@.subrange(0, open as int) =~= entry@.take(open as int));
    match InputCode::from_chars(inner) {
        Ok(code) => Some((string_of(label), code)),
        Err(_) => None,
    }
}

// ---------------------------------------------------------------------------
// capabilities
// ---------------------------------------------------------------------------

/// Parsed `capabilities --setting input-source` output.
#[derive(Debug, PartialEq, Eq)]
pub struct ParsedCapabilities {
    pub feature_present: bool,
    pub options: Vec<(InputCode, String)>,
    /// The `Raw:` MCCS string, when the tool printed one.
    pub raw_capabilities: Option<String>,
    pub model: Option<String>,
}

pub struct ParsedCapabilitiesView {
    pub feature_present: bool,
    pub options: Seq<(InputCode, Seq<char>)>,
    pub raw_capabilities: Option<Seq<char>>,
    pub model: Option<Seq<char>>,
}

impl DeepView for ParsedCapabilities {
    type V = ParsedCapabilitiesView;

    open spec fn deep_view(&self) -> ParsedCapabilitiesView {
        ParsedCapabilitiesView {
            feature_present: self.feature_present,
            options: options_view(self.options@),
            raw_capabilities: opt_text(self.raw_capabilities),
            model: opt_text(self.model),
        }
    }
}

/// The options in a list; the first entry that cannot be read ends the
/// reading. Empty entries say nothing.
pub open spec fn options_in(entries: Seq<Seq<char>>) -> Result<
    Seq<(InputCode, Seq<char>)>,
    ParseErrorView,
>
    decreases entries.len(),
{
    if entries.len() == 0 {
        Ok(Seq::empty())
    } else {
        let entry = trimmed(entries.last());
        match options_in(entries.drop_last()) {
            Err(e) => Err(e),
            Ok(front) => if entry.len() == 0 {
                Ok(front)
            } else {
                match label_and_code(entry) {
                    Some((label, code)) => Ok(front.push((code, label))),
                    None => Err(ParseErrorView::BadInputCode(entry)),
                }
            },
        }
    }
}

proof fn lemma_options_fail(entries: Seq<Seq<char>>, n: int)
    requires
        0 <= n <= entries.len(),
        options_in(entries.take(n)) is Err,
    ensures
        options_in(entries) == options_in(entries.take(n)),
    decreases entries.len(),
{
    if n == entries.len() {
        assert(entries.take(n) =~= entries);
    } else {
        assert(entries.drop_last().take(n) =~= entries.take(n));
        lemma_options_fail(entries.drop_last(), n);
    }
}

/// What has been read so far, and whether the section of codes was met.
pub struct Reading {
    pub parsed: ParsedCapabilitiesView,
    pub saw_vcp_section: bool,
}

/// The reading after one more line.
pub open spec fn line_read(state: Reading, line: Seq<char>) -> Result<Reading, ParseErrorView> {
    let t = trimmed(line);
    let parsed = state.parsed;
    if t == "VCP codes:"@ {
        Ok(Reading { saw_vcp_section: true, ..state })
    } else if "Model:"@.is_prefix_of(t) {
        let model = Some(trimmed(t.skip("Model:"@.len() as int)));
        Ok(Reading { parsed: ParsedCapabilitiesView { model, ..parsed }, ..state })
    } else if "Raw:"@.is_prefix_of(t) {
        let raw_capabilities = Some(trimmed(t.skip("Raw:"@.len() as int)));
        Ok(Reading { parsed: ParsedCapabilitiesView { raw_capabilities, ..parsed }, ..state })
    } else if "0x60 Input Source:"@.is_prefix_of(t) {
        match options_in(split_on(t.skip("0x60 Input Source:"@.len() as int), ',')) {
            Ok(more) => Ok(
                Reading {
                    parsed: ParsedCapabilitiesView {
                        feature_present: true,
                        options: parsed.options + more,
                        ..parsed
                    },
                    ..state
                },
            ),
            Err(e) => Err(e),
        }
    } else {
        Ok(state)
    }
}

/// The reading of some lines; the first that cannot be read ends it.
pub open spec fn lines_read(ls: Seq<Seq<char>>) -> Result<Reading, ParseErrorView>
    decreases ls.len(),
{
    if ls.len() == 0 {
        Ok(
            Reading {
                parsed: ParsedCapabilitiesView {
                    feature_present: false,
                    options: Seq::empty(),
                    raw_capabilities: None,
                    model: None,
                },
                saw_vcp_section: false,
            },
        )
    } else {
        match lines_read(ls.drop_last()) {
            Ok(state) => line_read(state, ls.last()),
            Err(e) => Err(e),
        }
    }
}

proof fn lemma_lines_read_fails(ls: Seq<Seq<char>>, n: int)
    requires
        0 <= n <= ls.len(),
        lines_read(ls.take(n)) is Err,
    ensures
        lines_read(ls) == lines_read(ls.take(n)),
    decreases ls.len(),
{
    if n == ls.len() {
        assert(ls.take(n) =~= ls);
    } else {
        assert(ls.drop_last().take(n) =~= ls.take(n));
        lemma_lines_read_fails(ls.drop_last(), n);
    }
}

/// What a capabilities text says.
pub open spec fn capabilities_in(stdout: Seq<char>) -> Result<
    ParsedCapabilitiesView,
    ParseErrorView,
> {
    match lines_read(lines_of(stdout)) {
        Err(e) => Err(e),
        Ok(state) => if state.saw_vcp_section {
            Ok(state.parsed)
        } else {
            Err(ParseErrorView::MissingVcpSection)
        },
    }
}

fn read_options(rest: &[char], options: &mut Vec<(InputCode, String)>) -> (r: Result<
    (),
    ParseError,
>)
    ensures
        match r {
            Ok(_) => options_in(split_on(rest@, ',')) matches Ok(more) && options_view(
                final(options)@,
            ) == options_view(old(options)@) + more,
            Err(e) => options_in(split_on(rest@, ',')) == Err::<
                Seq<(InputCode, Seq<char>)>,
                ParseErrorView,
            >(e.deep_view()),
        },
{
    let entries = split_char(rest, ',');
    let ghost es = split_on(rest@, ',');
    let ghost start = options_view(options@);
    let ghost mut more: Seq<(InputCode, Seq<char>)> = Seq::empty();
    let mut i: usize = 0;
    assert(es.take(0) =~= Seq::<Seq<char>>::empty());
    assert(options_view(options@) =~= start + more);
    while i < entries.len()
        invariant
            i <= entries.len(),
            es == pieces(entries@),
            es == split_on(rest@, ','),
            options_in(es.take(i as int)) == Ok::<Seq<(InputCode, Seq<char>)>, ParseErrorView>(
                more,
            ),
            options_view(options@) == start + more,
        decreases entries.len() - i,
    {
        let entry = trim(entries[i]);
        proof {
            let next = es.take(i as int + 1);
            assert(next.drop_last() =~= es.take(i as int));
            assert(next.last() == entries@[i as int]@);
        }
        if entry.len() > 0 {
            match split_label_and_code(entry) {
                Some((label, code)) => {
                    let ghost before = options@;
                    let ghost lv = label@;
                    options.push((code, label));
                    proof {
                        assert(options_view(options@) =~= options_view(before).push((code, lv)));
                        assert(options_view(options@) =~= start + more.push((code, lv)));
                        more = more.push((code, lv));
                    }
                },
                None => {
                    proof {
                        lemma_options_fail(es, i as int + 1);
                    }
                    return Err(ParseError::BadInputCode(string_of(entry)));
                },
            }
        }
        i += 1;
    }
    assert(es.take(es.len() as int) =~= es);
    Ok(())
}

pub fn parse_capabilities(stdout: &str) -> (r: Result<ParsedCapabilities, ParseError>)
    ensures
        match r {
            Ok(p) => capabilities_in(stdout@) == Ok::<ParsedCapabilitiesView, ParseErrorView>(
                p.deep_view(),
            ),
            Err(e) => capabilities_in(stdout@) == Err::<ParsedCapabilitiesView, ParseErrorView>(
                e.deep_view(),
            ),
        },
{
    let cs = chars_of(stdout);
    let all = lines(cs.as_slice());
    let ghost ls = lines_of(stdout@);
    let mut parsed = ParsedCapabilities {
        feature_present: false,
        options: Vec::new(),
        raw_capabilities: None,
        model: None,
    };
    let mut saw_vcp_section: bool = false;
    let mut i: usize = 0;
    assert(ls.take(0) =~= Seq::<Seq<char>>::empty());
    assert(parsed.deep_view().options =~= Seq::<(InputCode, Seq<char>)>::empty());
    while i < all.len()
        invariant
            i <= all.len(),
            ls == pieces(all@),
            ls == lines_of(stdout@),
            lines_read(ls.take(i as int)) == Ok::<Reading, ParseErrorView>(
                Reading { parsed: parsed.deep_view(), saw_vcp_section },
            ),
        decreases all.len() - i,
    {
        let t = trim(all[i]);
        proof {
            let next = ls.take(i as int + 1);
            assert(next.drop_last() =~= ls.take(i as int));
            assert(next.last() == all@[i as int]@);
        }
        if is_text(t, "VCP codes:") {
            saw_vcp_section = true;
        } else if let Some(rest) = strip_prefix(t, "Model:") {
            parsed.model = Some(string_of(trim(rest)));
        } else if let Some(rest) = strip_prefix(t, "Raw:") {
            parsed.raw_capabilities = Some(string_of(trim(rest)));
        } else if let Some(rest) = strip_prefix(t, "0x60 Input Source:") {
            parsed.feature_present = true;
            match read_options(rest, &mut parsed.options) {
                Ok(_) => {},
                Err(e) => {
                    proof {
                        lemma_lines_read_fails(ls, i as int + 1);
                    }
                    return Err(e);
                },
            }
        }
        i += 1;
    }
    assert(ls.take(ls.len() as int) =~= ls);
    if !saw_vcp_section {
        return Err(ParseError::MissingVcpSection);
    }
    Ok(parsed)
}

// ---------------------------------------------------------------------------
// get
// ---------------------------------------------------------------------------

/// Parsed `get --setting input-source` output.
#[derive(Debug, PartialEq, Eq)]
pub struct ParsedGet {
    pub id: Option<String>,
    pub protocol: Option<String>,
    /// `None` means the tool printed no `input-source` line at all, i.e. the
    /// monitor does not expose the setting. That is not the same as a failure.
    pub input_source: Option<InputCode>,
}

pub struct ParsedGetView {
    pub id: Option<Seq<char>>,
    pub protocol: Option<Seq<char>>,
    pub input_source: Option<InputCode>,
}

impl DeepView for ParsedGet {
    type V = ParsedGetView;

    open spec fn deep_view(&self) -> ParsedGetView {
        ParsedGetView {
            id: opt_text(self.id),
            protocol: opt_text(self.protocol),
            input_source: self.input_source,
        }
    }
}

/// An indented `key      value` line, split on its first run of two or more
/// spaces.
pub open spec fn key_and_value(line: Seq<char>) -> Option<(Seq<char>, Seq<char>)> {
    let t = trimmed(line);
    if has_text(t, "  "@) {
        let at = choose|at: int| first_at(t, "  "@, 0, at);
        let key = trimmed(t.take(at));
        let value = trimmed(t.skip(at));
        if key.len() > 0 && value.len() > 0 {
            Some((key, value))
        } else {
            None
        }
    } else {
        None
    }
}

/// The code in a value: the one in brackets behind a label, or a bare one.
pub open spec fn code_in_value(value: Seq<char>) -> Option<InputCode> {
    match label_and_code(value) {
        Some((_, code)) => Some(code),
        None => match code_in(trimmed(value)) {
            Ok(code) => Some(code),
            Err(_) => None,
        },
    }
}

/// The settings after one more line.
pub open spec fn setting_read(parsed: ParsedGetView, line: Seq<char>) -> Result<
    ParsedGetView,
    ParseErrorView,
> {
    match key_and_value(line) {
        None => Ok(parsed),
        Some((key, value)) => if key == "id"@ {
            Ok(ParsedGetView { id: Some(value), ..parsed })
        } else if key == "protocol"@ {
            Ok(ParsedGetView { protocol: Some(value), ..parsed })
        } else if key == "input-source"@ {
            match code_in_value(value) {
                Some(code) => Ok(ParsedGetView { input_source: Some(code), ..parsed }),
                None => Err(ParseErrorView::BadInputCode(value)),
            }
        } else {
            Ok(parsed)
        },
    }
}

/// The settings that lines say; the first that cannot be read ends the
/// reading.
pub open spec fn settings_read(ls: Seq<Seq<char>>) -> Result<ParsedGetView, ParseErrorView>
    decreases ls.len(),
{
    if ls.len() == 0 {
        Ok(ParsedGetView { id: None, protocol: None, input_source: None })
    } else {
        match settings_read(ls.drop_last()) {
            Ok(parsed) => setting_read(parsed, ls.last()),
            Err(e) => Err(e),
        }
    }
}

proof fn lemma_settings_fail(ls: Seq<Seq<char>>, n: int)
    requires
        0 <= n <= ls.len(),
        settings_read(ls.take(n)) is Err,
    ensures
        settings_read(ls) == settings_read(ls.take(n)),
    decreases ls.len(),
{
    if n == ls.len() {
        assert(ls.take(n) =~= ls);
    } else {
        assert(ls.drop_last().take(n) =~= ls.take(n));
        lemma_settings_fail(ls.drop_last(), n);
    }
}

/// What a `get` text says.
pub open spec fn settings_of(stdout: Seq<char>) -> Result<ParsedGetView, ParseErrorView> {
    let ls = said_lines(stdout);
    if ls.len() == 0 {
        Err(ParseErrorView::MissingMonitorHeader(Seq::empty()))
    } else if !"Monitor "@.is_prefix_of(trimmed_start(ls[0])) {
        Err(ParseErrorView::MissingMonitorHeader(ls[0]))
    } else {
        settings_read(ls.skip(1))
    }
}

fn split_key_value(line: &[char]) -> (r: Option<(String, String)>)
    ensures
        match r {
            Some((key, value)) => key_and_value(line@) == Some((key@, value@)),
            None => key_and_value(line@) is None,
        },
{
    let t = trim(line);
    let gap = chars_of("  ");
    match find_from(t, gap.as_slice(), 0) {
        None => {
            assert(!has_text(t@, "  "@));
            None
        },
        Some(at) => {
            proof {
                assert(occurs_at(t@, "  "@, at as int));
                let chosen = choose|c: int| first_at(t@, "  "@, 0, c);
                assert(first_at(t@, "  "@, 0, at as int));
                assert(chosen == at) by {
                    if chosen < at {
                        assert(occurs_at(t@, "  "@, chosen));
                    } else if at < chosen {
                        assert(occurs_at(t@, "  "@, at as int));
                    }
                }
            }
            let end: usize = t.len();
            assert(at <= end);
            let before = slice_subrange(t, 0, at);
            let behind = slice_subrange(t, at, end);
            assert(before@ =~= t@.take(at as int));
            assert(behind@ =~= t@.skip(at as int));
            let key = trim(before);
            let value = trim(behind);
            if key.len() > 0 && value.len() > 0 {
                Some((string_of(key), string_of(value)))
            } else {
                None
            }
        },
    }
}

fn find_code(value: &str) -> (r: Option<InputCode>)
    ensures
        r == code_in_value(value@),
{
    let cs = chars_of(value);
    match split_label_and_code(cs.as_slice()) {
        Some((_, code)) => Some(code),
        None => match InputCode::from_chars(trim(cs.as_slice())) {
            Ok(code) => Some(code),
            Err(_) => None,
        },
    }
}

pub fn parse_get(stdout: &str) -> (r: Result<ParsedGet, ParseError>)
    ensures
        match r {
            Ok(p) => settings_of(stdout@) == Ok::<ParsedGetView, ParseErrorView>(p.deep_view()),
            Err(e) => settings_of(stdout@) == Err::<ParsedGetView, ParseErrorView>(e.deep_view()),
        },
{
    let cs = chars_of(stdout);
    let all = said(cs.as_slice());
    let ghost ls = said_lines(stdout@);
    if all.len() == 0 {
        let none = String::new();
        assert(none@ =~= Seq::<char>::empty());
        return Err(ParseError::MissingMonitorHeader(none));
    }
    assert(ls[0] == all@[0]@);
    if !starts_with_str(trim_start(all[0]), "Monitor ") {
        return Err(ParseError::MissingMonitorHeader(string_of(all[0])));
    }
    let ghost rest = ls.skip(1);
    let mut parsed = ParsedGet { id: None, protocol: None, input_source: None };
    let mut i: usize = 1;
    assert(rest.take(0) =~= Seq::<Seq<char>>::empty());
    while i < all.len()
        invariant
            1 <= i <= all.len(),
            ls == pieces(all@),
            rest == ls.skip(1),
            settings_of(stdout@) == settings_read(rest),
            settings_read(rest.take(i - 1)) == Ok::<ParsedGetView, ParseErrorView>(
                parsed.deep_view(),
            ),
        decreases all.len() - i,
    {
        proof {
            let next = rest.take(i as int);
            assert(next.drop_last() =~= rest.take(i - 1));
            assert(next.last() == all@[i as int]@);
        }
        match split_key_value(all[i]) {
            None => {},
            Some((key, value)) => {
                if same(key.as_str(), "id") {
                    parsed.id = Some(value);
                } else if same(key.as_str(), "protocol") {
                    parsed.protocol = Some(value);
                } else if same(key.as_str(), "input-source") {
                    match find_code(value.as_str()) {
                        Some(code) => {
                            parsed.input_source = Some(code);
                        },
                        None => {
                            proof {
                                lemma_settings_fail(rest, i as int);
                            }
                            return Err(ParseError::BadInputCode(value));
                        },
                    }
                }
            },
        }
        i += 1;
    }
    assert(rest.take(rest.len() as int) =~= rest);
    Ok(parsed)
}

// ---------------------------------------------------------------------------
// What the parsers promise
// ---------------------------------------------------------------------------

/// A list is read whole or not at all: every line behind the header becomes
/// one row, and every row has a connection to be addressed by.
pub proof fn law_a_list_is_read_whole(stdout: Seq<char>)
    ensures
        list_of(stdout) matches Ok(rows) ==> {
            &&& rows.len() == said_lines(stdout).len() - 1
            &&& forall|i: int|
                0 <= i < rows.len() ==> (#[trigger] rows[i]).id.len() > 0 && rows[i].raw
                    == said_lines(stdout)[i + 1]
        },
{
    let ls = said_lines(stdout);
    if ls.len() > 0 {
        lemma_rows_are_lines(ls.skip(1));
    }
}

proof fn lemma_rows_are_lines(ls: Seq<Seq<char>>)
    ensures
        rows_of(ls) matches Ok(rows) ==> {
            &&& rows.len() == ls.len()
            &&& forall|i: int|
                0 <= i < rows.len() ==> (#[trigger] rows[i]).id.len() > 0 && rows[i].raw == ls[i]
        },
    decreases ls.len(),
{
    if ls.len() > 0 {
        lemma_rows_are_lines(ls.drop_last());
    }
}

// ---------------------------------------------------------------------------
// Laws of reading Power Display
// ---------------------------------------------------------------------------

proof fn lemma_four_columns(a: Seq<char>, b: Seq<char>, c: Seq<char>, d: Seq<char>)
    requires
        !a.contains('|') && !b.contains('|') && !c.contains('|') && !d.contains('|'),
    ensures
        columns(a + seq!['|'] + b + seq!['|'] + c + seq!['|'] + d) == seq![
            trimmed(a),
            trimmed(b),
            trimmed(c),
            trimmed(d),
        ],
{
    let ab = a + seq!['|'] + b;
    let abc = ab + seq!['|'] + c;
    law_a_text_splits_at_a_separator(abc, '|', d);
    law_a_text_splits_at_a_separator(ab, '|', c);
    law_a_text_splits_at_a_separator(a, '|', b);
    law_a_text_without_separator_is_whole(a, '|');
    law_a_text_without_separator_is_whole(b, '|');
    law_a_text_without_separator_is_whole(c, '|');
    law_a_text_without_separator_is_whole(d, '|');
    let parts = split_on(abc + seq!['|'] + d, '|');
    assert(parts =~= seq![a, b, c, d]);
    assert(columns(abc + seq!['|'] + d) =~= seq![trimmed(a), trimmed(b), trimmed(c), trimmed(d)]);
}

/// A row is its four columns, each without the white space round it: a number,
/// a name if there is one, a method and an id.
pub proof fn law_a_row_is_its_four_columns(
    a: Seq<char>,
    b: Seq<char>,
    c: Seq<char>,
    d: Seq<char>,
)
    requires
        !a.contains('|') && !b.contains('|') && !c.contains('|') && !d.contains('|'),
        trimmed(a).len() > 0,
        all_digits(trimmed(a), 10),
    ensures
        ({
            let line = a + seq!['|'] + b + seq!['|'] + c + seq!['|'] + d;
            &&& worth(trimmed(a), 10) <= u32::MAX && trimmed(d).len() > 0 ==> (row_of(
                line,
            ) matches Ok(row) && {
                &&& row.number == worth(trimmed(a), 10)
                &&& row.name == (if trimmed(b).len() > 0 {
                    Some(trimmed(b))
                } else {
                    None
                })
                &&& row.method == trimmed(c)
                &&& row.id == trimmed(d)
                &&& row.raw == line
            })
            &&& worth(trimmed(a), 10) > u32::MAX || trimmed(d).len() == 0 ==> row_of(line) is Err
        }),
{
    lemma_four_columns(a, b, c, d);
    assert(0 <= digit_worth(trimmed(a)[0]));
    law_digits_are_read_for_their_worth(trimmed(a), 10, u32::MAX as nat);
}

proof fn lemma_code_reads(code: InputCode)
    ensures
        code_in(code_text(code)) == Ok::<InputCode, InputCodeParseErrorView>(code),
        trimmed(code_text(code)) == code_text(code),
        !code_text(code).contains('('),
        !code_text(code).contains(')'),
{
    let s = code_text(code);
    reveal_strlit("0x");
    law_a_code_is_written_for_its_worth(code, code);
    law_a_number_is_worth_its_digits(code.0 as nat, 16);
    law_zeros_before_a_number_add_nothing(
        crate::digits::numeral(code.0 as nat, 16),
        2,
        16,
    );
    let digits = hex_padded(code.0 as nat, 2);
    assert(all_digits(digits, 16));
    assert(s.skip(2) =~= digits);
    assert forall|i: int| 0 <= i < s.len() implies #[trigger] s[i] != '(' && s[i] != ')'
        && !white_space(s[i]) by {
        if i >= 2 {
            assert(s[i] == digits[i - 2]);
            assert(0 <= digit_worth(digits[i - 2]) < 16);
        } else {
            assert(s[i] == s.take(2)[i]);
        }
    }
    assert(!white_space(s[0]) && !white_space(s[3]));
    assert(cut_out(s, 0, 4));
    law_a_text_is_trimmed_one_way(s, 0, 4);
    assert(s.subrange(0, 4) =~= s);
    law_code_text_reads_back(code);
}

/// An input is what stands before its code, and the code stands in the last
/// parentheses.
pub proof fn law_an_input_is_a_label_and_a_code(
    label: Seq<char>,
    code: InputCode,
    tail: Seq<char>,
)
    requires
        !tail.contains('(') && !tail.contains(')'),
    ensures
        label_and_code(label + seq!['('] + code_text(code) + seq![')'] + tail) == Some(
            (trimmed(label), code),
        ),
        code_in_value(label + seq!['('] + code_text(code) + seq![')'] + tail) == Some(code),
        code_in_value(code_text(code)) == Some(code),
{
    lemma_code_reads(code);
    let t = code_text(code);
    let entry = label + seq!['('] + t + seq![')'] + tail;
    let n = label.len() as int;
    let behind = t + seq![')'] + tail;
    assert forall|i: int| 0 <= i < behind.len() implies behind[i] != '(' by {
        if i < t.len() {
            assert(behind[i] == t[i]);
        } else if i > t.len() {
            assert(behind[i] == tail[i - t.len() - 1]);
        }
    }
    assert(label + seq!['('] + behind =~= entry);
    law_the_last_place_has_none_behind(label, '(', behind);
    law_the_last_place_has_none_behind(label + seq!['('] + t, ')', tail);
    assert(last_place(entry, '(') == Some(n));
    assert(last_place(entry, ')') == Some(n + 1 + t.len()));
    assert(entry.subrange(n + 1, n + 1 + t.len()) =~= t);
    assert(entry.take(n) =~= label);
    law_the_last_place_has_none_behind(Seq::empty(), '(', t);
}

/// An input as the list writes it.
pub open spec fn input_entry(input: (InputCode, Seq<char>)) -> Seq<char> {
    seq![' '] + input.1 + seq![' ', '('] + code_text(input.0) + seq![')']
}

/// Every input of a list is read back, in order, under its own code.
pub proof fn law_listed_inputs_are_read_back(inputs: Seq<(InputCode, Seq<char>)>)
    requires
        forall|i: int|
            0 <= i < inputs.len() ==> trimmed(#[trigger] inputs[i].1) == inputs[i].1
                && inputs[i].1.len() > 0,
    ensures
        options_in(inputs.map_values(|o: (InputCode, Seq<char>)| input_entry(o))) == Ok::<
            Seq<(InputCode, Seq<char>)>,
            ParseErrorView,
        >(inputs),
    decreases inputs.len(),
{
    let write = |o: (InputCode, Seq<char>)| input_entry(o);
    let entries = inputs.map_values(write);
    if inputs.len() == 0 {
        assert(options_in(entries)->Ok_0 =~= inputs);
    } else {
        let front = inputs.drop_last();
        assert forall|i: int| 0 <= i < front.len() implies trimmed(#[trigger] front[i].1)
            == front[i].1 && front[i].1.len() > 0 by {
            assert(front[i] == inputs[i]);
            assert(trimmed(inputs[i].1) == inputs[i].1);
        }
        law_listed_inputs_are_read_back(front);
        assert(entries.drop_last() =~= front.map_values(write));
        let last = inputs.last();
        assert(entries.last() == input_entry(last));
        assert(trimmed(inputs[inputs.len() - 1].1) == last.1);
        lemma_entry_reads(last);
        assert(front.push(last) =~= inputs);
    }
}

proof fn lemma_entry_reads(input: (InputCode, Seq<char>))
    requires
        trimmed(input.1) == input.1,
        input.1.len() > 0,
    ensures
        trimmed(input_entry(input)).len() > 0,
        label_and_code(trimmed(input_entry(input))) == Some((input.1, input.0)),
{
    let label = input.1;
    let t = code_text(input.0);
    let before = label + seq![' '];
    let whole = before + seq!['('] + t + seq![')'] + Seq::<char>::empty();
    assert(!white_space(label[0]) && !white_space(label[label.len() - 1])) by {
        let (from, to) = law_trimming_leaves_the_text(label);
        assert(to - from == label.len());
    }
    assert(trimmed(input_entry(input)) == whole) by {
        lemma_entry_trimmed(label, t);
    }
    assert(trimmed(before) == label) by {
        lemma_one_blank_behind(label);
    }
    assert(label_and_code(whole) == Some((trimmed(before), input.0))) by {
        law_an_input_is_a_label_and_a_code(before, input.0, Seq::empty());
    }
}

proof fn lemma_one_blank_behind(label: Seq<char>)
    requires
        label.len() > 0,
        !white_space(label[0]),
        !white_space(label[label.len() - 1]),
    ensures
        trimmed(label + seq![' ']) == label,
{
    let n = label.len() as int;
    let before = label + seq![' '];
    assert(before[0] == label[0] && before[n - 1] == label[n - 1] && before[n] == ' ');
    assert(cut_out(before, 0, n));
    law_a_text_is_trimmed_one_way(before, 0, n);
    assert(before.subrange(0, n) =~= label);
}

proof fn lemma_entry_trimmed(label: Seq<char>, t: Seq<char>)
    requires
        label.len() > 0,
        !white_space(label[0]),
    ensures
        trimmed(seq![' '] + label + seq![' ', '('] + t + seq![')']) == label + seq![' '] + seq!['(']
            + t + seq![')'] + Seq::<char>::empty(),
{
    let e = seq![' '] + label + seq![' ', '('] + t + seq![')'];
    let n = e.len() as int;
    assert(e[0] == ' ' && e[1] == label[0] && e[n - 1] == ')');
    law_signs_are_no_white_space(')');
    assert(cut_out(e, 1, n));
    law_a_text_is_trimmed_one_way(e, 1, n);
    assert(e.subrange(1, n) =~= label + seq![' '] + seq!['('] + t + seq![')']
        + Seq::<char>::empty());
}

/// The line of feature 0x60 adds its inputs to those that were read, and no
/// other line adds any.
pub proof fn law_inputs_come_from_their_own_line(state: Reading, line: Seq<char>)
    ensures
        "0x60 Input Source:"@.is_prefix_of(trimmed(line)) ==> match options_in(
            split_on(trimmed(line).skip("0x60 Input Source:"@.len() as int), ','),
        ) {
            Ok(more) => line_read(state, line) matches Ok(after) && after.parsed.feature_present
                && after.parsed.options == state.parsed.options + more && after.saw_vcp_section
                == state.saw_vcp_section,
            Err(e) => line_read(state, line) is Err,
        },
        !"0x60 Input Source:"@.is_prefix_of(trimmed(line)) ==> (line_read(state, line) matches Ok(
            after,
        ) && after.parsed.options == state.parsed.options && after.parsed.feature_present
            == state.parsed.feature_present),
        line_read(state, line) matches Ok(after) ==> (after.saw_vcp_section
            <==> state.saw_vcp_section || trimmed(line) == "VCP codes:"@),
{
    let t = trimmed(line);
    reveal_strlit("0x60 Input Source:");
    reveal_strlit("VCP codes:");
    reveal_strlit("Model:");
    reveal_strlit("Raw:");
    if "0x60 Input Source:"@.is_prefix_of(t) {
        assert(t.subrange(0, 18)[0] == t[0]);
        assert("0x60 Input Source:"@[0] == '0' && "VCP codes:"@[0] == 'V');
        assert("Model:"@[0] == 'M' && "Raw:"@[0] == 'R');
        if "Model:"@.is_prefix_of(t) {
            assert(t.subrange(0, 6)[0] == t[0]);
        }
        if "Raw:"@.is_prefix_of(t) {
            assert(t.subrange(0, 4)[0] == t[0]);
        }
    }
    if t == "VCP codes:"@ {
        assert(t[0] == 'V');
    }
    if "Model:"@.is_prefix_of(t) {
        assert(t.subrange(0, 6)[0] == t[0]);
        assert("Model:"@[0] == 'M' && "VCP codes:"@[0] == 'V');
    }
    if "Raw:"@.is_prefix_of(t) {
        assert(t.subrange(0, 4)[0] == t[0]);
        assert("Raw:"@[0] == 'R' && "VCP codes:"@[0] == 'V');
    }
}

/// A setting is a key and a value with two blanks between: what stands before
/// the first pair of them and what stands behind.
pub proof fn law_a_setting_is_a_key_and_a_value(
    line: Seq<char>,
    from: int,
    to: int,
    key: Seq<char>,
    blanks: nat,
    value: Seq<char>,
)
    requires
        cut_out(line, from, to),
        line.subrange(from, to) == key + repeated(' ', blanks) + value,
        blanks >= 2,
        key.len() > 0,
        value.len() > 0,
        !white_space(key.last()),
        !has_text(key, "  "@),
        !white_space(value[0]),
    ensures
        key_and_value(line) == Some((key, value)),
{
    law_a_text_is_trimmed_one_way(line, from, to);
    let t = trimmed(line);
    let n = key.len() as int;
    reveal_strlit("  ");
    assert(t.subrange(n, n + 2) =~= "  "@);
    assert(occurs_at(t, "  "@, n));
    assert forall|j: int| 0 <= j < n implies !#[trigger] occurs_at(t, "  "@, j) by {
        if occurs_at(t, "  "@, j) {
            let piece = t.subrange(j, j + 2);
            assert(piece[0] == t[j] && piece[1] == t[j + 1]);
            assert("  "@[0] == ' ' && "  "@[1] == ' ');
            assert(t[j] == key[j]);
            if j == n - 1 {
                assert(white_space(' '));
            } else {
                assert(t[j + 1] == key[j + 1]);
                assert(key.subrange(j, j + 2) =~= "  "@);
                assert(occurs_at(key, "  "@, j));
            }
        }
    }
    assert(first_at(t, "  "@, 0, n));
    let at = choose|at: int| first_at(t, "  "@, 0, at);
    assert(at == n);
    assert(t.take(n) =~= key);
    assert(key[0] == t[0]);
    assert(!white_space(line[from]));
    assert(line.subrange(from, to)[0] == line[from]);
    law_a_text_is_trimmed_one_way(key, 0, n);
    assert(key.subrange(0, n) =~= key);
    let rest = t.skip(n);
    let k = blanks as int;
    let m = value.len() as int;
    assert(rest =~= repeated(' ', blanks) + value);
    assert(rest[k] == value[0]);
    assert(rest.last() == value.last());
    assert(line.subrange(from, to).last() == line[to - 1]);
    assert(t.last() == value.last());
    assert forall|i: int| 0 <= i < k implies white_space(#[trigger] rest[i]) by {
        assert(rest[i] == ' ');
    }
    assert(cut_out(rest, k, k + m));
    law_a_text_is_trimmed_one_way(rest, k, k + m);
    assert(rest.subrange(k, k + m) =~= value);
}

/// Each setting fills the field it names and leaves the others, and the input
/// is the code its value gives.
pub proof fn law_a_setting_fills_its_field(
    parsed: ParsedGetView,
    line: Seq<char>,
    key: Seq<char>,
    value: Seq<char>,
)
    requires
        key_and_value(line) == Some((key, value)),
    ensures
        key == "input-source"@ ==> match code_in_value(value) {
            Some(code) => setting_read(parsed, line) matches Ok(after) && after.input_source
                == Some(code) && after.id == parsed.id && after.protocol == parsed.protocol,
            None => setting_read(parsed, line) is Err,
        },
        key != "input-source"@ ==> (setting_read(parsed, line) matches Ok(after) && {
            &&& after.input_source == parsed.input_source
            &&& after.id == if key == "id"@ {
                Some(value)
            } else {
                parsed.id
            }
            &&& after.protocol == if key == "protocol"@ {
                Some(value)
            } else {
                parsed.protocol
            }
        }),
{
    reveal_strlit("id");
    reveal_strlit("protocol");
    reveal_strlit("input-source");
    assert("id"@.len() == 2 && "protocol"@.len() == 8 && "input-source"@.len() == 12);
}

/// Settings are read only under the heading of a monitor.
pub proof fn law_settings_need_their_heading(stdout: Seq<char>)
    ensures
        settings_of(stdout) is Ok ==> said_lines(stdout).len() > 0 && "Monitor "@.is_prefix_of(
            trimmed_start(said_lines(stdout)[0]),
        ),
        said_lines(stdout).len() == 1 && "Monitor "@.is_prefix_of(
            trimmed_start(said_lines(stdout)[0]),
        ) ==> (settings_of(stdout) matches Ok(parsed) && parsed.input_source is None),
{
    if said_lines(stdout).len() == 1 {
        assert(said_lines(stdout).skip(1) =~= Seq::empty());
    }
}

} // verus!

//! Parsers for `ddcutil` output.
//!
//! Where ddcutil offers a `--terse` form, the terse form is parsed in
//! preference: it is the machine-oriented output and changes far less often
//! than the human-readable layout.

use vstd::prelude::*;

use crate::digits::{
    all_digits, all_hex, dec, decimal, digit_worth, hex_digit, is_all_hex,
    law_a_byte_is_read_for_its_worth, law_digits_are_read_for_their_worth, leading_hex, not_hex,
    parse_unsigned, take_hex, unsigned_value, worth,
};
use crate::runner::options_view;
use crate::seqs::{
    first_some, lemma_first_index_here, lemma_first_index_none, lemma_first_some_here,
    lemma_first_some_none, lemma_first_some_reaches,
};
use crate::text::{
    after_prefix, cat2, cat3, chars_of, contains_str, copy_opt, cut, cut_at, cut_out, find_from,
    first_at, has_text, is_white_space, law_a_blank_text_is_all_white_space,
    law_a_text_is_cut_at_the_first, law_a_text_is_trimmed_one_way,
    law_a_text_without_white_space_is_a_word, law_an_ending_is_taken_off,
    law_nothing_but_case_is_ignored, law_words_part_at_white_space, lemma_after_prefix, lines,
    lines_of, occurs_at, opt_text, pieces, quote, quoted_text, repeated, same_chars_ignoring_case,
    same_ignoring_case, same_letter, spelled_alike, starts_with_str, string_of, strip_end,
    strip_prefix, stripped_end, trim, trimmed, white_space, words, words_of,
};
use crate::types::InputCode;

verus! {

#[derive(Debug, PartialEq, Eq)]
pub enum ParseError {
    NoDisplays(String),
    BadVcpValue(String),
    NotInputSource(String),
    Capabilities(String),
}

pub enum ParseErrorView {
    NoDisplays(Seq<char>),
    BadVcpValue(Seq<char>),
    NotInputSource(Seq<char>),
    Capabilities(Seq<char>),
}

impl DeepView for ParseError {
    type V = ParseErrorView;

    open spec fn deep_view(&self) -> ParseErrorView {
        match self {
            ParseError::NoDisplays(s) => ParseErrorView::NoDisplays(s@),
            ParseError::BadVcpValue(s) => ParseErrorView::BadVcpValue(s@),
            ParseError::NotInputSource(s) => ParseErrorView::NotInputSource(s@),
            ParseError::Capabilities(s) => ParseErrorView::Capabilities(s@),
        }
    }
}

impl Clone for ParseError {
    fn clone(&self) -> (r: Self)
        ensures
            r == *self,
    {
        match self {
            ParseError::NoDisplays(s) => ParseError::NoDisplays(s.clone()),
            ParseError::BadVcpValue(s) => ParseError::BadVcpValue(s.clone()),
            ParseError::NotInputSource(s) => ParseError::NotInputSource(s.clone()),
            ParseError::Capabilities(s) => ParseError::Capabilities(s.clone()),
        }
    }
}

impl ParseErrorView {
    pub open spec fn message(self) -> Seq<char> {
        match self {
            ParseErrorView::NoDisplays(s) => "`ddcutil detect` produced no display blocks: "@
                + quoted_text(s),
            ParseErrorView::BadVcpValue(s) => "could not read a VCP value from "@ + quoted_text(s),
            ParseErrorView::NotInputSource(s) => {
                "`getvcp 60` output did not mention feature 0x60: "@ + quoted_text(s)
            },
            ParseErrorView::Capabilities(s) => "could not parse capabilities output: "@ + s,
        }
    }
}

impl ParseError {
    pub fn to_string(&self) -> (r: String)
        ensures
            r@ == self.deep_view().message(),
    {
        match self {
            ParseError::NoDisplays(s) => cat2(
                "`ddcutil detect` produced no display blocks: ",
                quote(s.as_str()).as_str(),
            ),
            ParseError::BadVcpValue(s) => cat2(
                "could not read a VCP value from ",
                quote(s.as_str()).as_str(),
            ),
            ParseError::NotInputSource(s) => cat2(
                "`getvcp 60` output did not mention feature 0x60: ",
                quote(s.as_str()).as_str(),
            ),
            ParseError::Capabilities(s) => cat2("could not parse capabilities output: ", s.as_str()),
        }
    }
}

// ---------------------------------------------------------------------------
// detect
// ---------------------------------------------------------------------------

/// One display block from `ddcutil detect`.
#[derive(Debug, PartialEq, Eq)]
pub struct DetectedDisplay {
    /// The `Display N` number. A discovery-time address, never identity.
    pub display_number: Option<u32>,
    /// e.g. `/dev/i2c-5`.
    pub i2c_bus: Option<String>,
    /// e.g. `card1-DP-1`. The closest ddcutil analogue to a stable port id.
    pub drm_connector: Option<String>,
    pub manufacturer: Option<String>,
    pub model: Option<String>,
    pub serial: Option<String>,
    /// True for blocks ddcutil reported as `Invalid display`, which are
    /// present on the bus but cannot carry DDC.
    pub invalid: bool,
    pub raw: String,
}

pub struct DetectedDisplayView {
    pub display_number: Option<u32>,
    pub i2c_bus: Option<Seq<char>>,
    pub drm_connector: Option<Seq<char>>,
    pub manufacturer: Option<Seq<char>>,
    pub model: Option<Seq<char>>,
    pub serial: Option<Seq<char>>,
    pub invalid: bool,
    pub raw: Seq<char>,
}

impl DeepView for DetectedDisplay {
    type V = DetectedDisplayView;

    open spec fn deep_view(&self) -> DetectedDisplayView {
        DetectedDisplayView {
            display_number: self.display_number,
            i2c_bus: opt_text(self.i2c_bus),
            drm_connector: opt_text(self.drm_connector),
            manufacturer: opt_text(self.manufacturer),
            model: opt_text(self.model),
            serial: opt_text(self.serial),
            invalid: self.invalid,
            raw: self.raw@,
        }
    }
}

impl Clone for DetectedDisplay {
    fn clone(&self) -> (r: Self)
        ensures
            r.deep_view() == self.deep_view(),
    {
        DetectedDisplay {
            display_number: self.display_number,
            i2c_bus: copy_opt(&self.i2c_bus),
            drm_connector: copy_opt(&self.drm_connector),
            manufacturer: copy_opt(&self.manufacturer),
            model: copy_opt(&self.model),
            serial: copy_opt(&self.serial),
            invalid: self.invalid,
            raw: self.raw.clone(),
        }
    }
}

impl DetectedDisplayView {
    /// The most stable handle available for this display: the connector, else
    /// the bus, else the number.
    pub open spec fn stable_id(self) -> Seq<char> {
        match self.drm_connector {
            Some(c) => c,
            None => match self.i2c_bus {
                Some(b) => b,
                None => "display-"@ + match self.display_number {
                    Some(n) => decimal(n as nat),
                    None => "unknown"@,
                },
            },
        }
    }

    /// A block that only its first line is known of.
    pub open spec fn opened(number: Option<u32>, invalid: bool, line: Seq<char>) -> Self {
        DetectedDisplayView {
            display_number: number,
            i2c_bus: None,
            drm_connector: None,
            manufacturer: None,
            model: None,
            serial: None,
            invalid,
            raw: line + "\n"@,
        }
    }

    /// A block with what one `key: value` pair says of it.
    pub open spec fn told(self, key: Seq<char>, value: Seq<char>) -> Self {
        if key == "I2C bus"@ {
            DetectedDisplayView { i2c_bus: Some(value), ..self }
        } else if key == "DRM connector"@ {
            DetectedDisplayView { drm_connector: Some(value), ..self }
        } else if key == "Mfg id"@ {
            // `AOC - (Unknown)` or just `AOC`: keep only the PNP id.
            DetectedDisplayView {
                manufacturer: Some(trimmed(stripped_end(first_word(value), '-'))),
                ..self
            }
        } else if key == "Model"@ {
            DetectedDisplayView { model: Some(value), ..self }
        } else if key == "Serial number"@ {
            DetectedDisplayView { serial: Some(value), ..self }
        } else {
            self
        }
    }

    /// A block with one more line.
    pub open spec fn with_line(self, line: Seq<char>) -> Self {
        let longer = DetectedDisplayView { raw: self.raw + line + "\n"@, ..self };
        match pair_in(line) {
            None => longer,
            Some((key, value)) => {
                let d = longer.told(key, value);
                if has_text(trimmed(line), "does not support DDC"@) {
                    DetectedDisplayView { invalid: true, ..d }
                } else {
                    d
                }
            },
        }
    }
}

pub open spec fn first_word(value: Seq<char>) -> Seq<char> {
    if words_of(value).len() > 0 {
        words_of(value)[0]
    } else {
        value
    }
}

/// The `key: value` pair of a line, if it has one and the value says
/// something.
pub open spec fn pair_in(line: Seq<char>) -> Option<(Seq<char>, Seq<char>)> {
    match cut_at(trimmed(line), ':') {
        Some((key, value)) if trimmed(value).len() > 0 => Some((trimmed(key), trimmed(value))),
        _ => None,
    }
}

/// A new block starts at column zero.
pub open spec fn starts_block(line: Seq<char>) -> bool {
    trimmed(line).len() > 0 && !white_space(line[0])
}

pub open spec fn number_in(s: Seq<char>) -> Option<u32> {
    match unsigned_value(s, 10, u32::MAX as nat) {
        Ok(n) => Some(n as u32),
        Err(_) => None,
    }
}

/// The block that a line at column zero opens, if it opens one. Any other such
/// line (a banner, a warning) only closes the block before it.
pub open spec fn block_opened(line: Seq<char>) -> Option<DetectedDisplayView> {
    match after_prefix(trimmed(line), "Display "@) {
        Some(rest) => Some(
            DetectedDisplayView::opened(number_in(trimmed(rest)), false, line),
        ),
        None => if "Invalid display"@.is_prefix_of(trimmed(line)) {
            Some(DetectedDisplayView::opened(None, true, line))
        } else {
            None
        },
    }
}

/// The blocks that some lines close, and the one they leave open.
pub open spec fn blocks_in(ls: Seq<Seq<char>>) -> (
    Seq<DetectedDisplayView>,
    Option<DetectedDisplayView>,
)
    decreases ls.len(),
{
    if ls.len() == 0 {
        (Seq::empty(), None)
    } else {
        let (closed, open) = blocks_in(ls.drop_last());
        if starts_block(ls.last()) {
            (with_open(closed, open), block_opened(ls.last()))
        } else {
            (
                closed,
                match open {
                    Some(d) => Some(d.with_line(ls.last())),
                    None => None,
                },
            )
        }
    }
}

pub open spec fn with_open(
    closed: Seq<DetectedDisplayView>,
    open: Option<DetectedDisplayView>,
) -> Seq<DetectedDisplayView> {
    match open {
        Some(d) => closed.push(d),
        None => closed,
    }
}

/// The display blocks of a text.
pub open spec fn displays_in(stdout: Seq<char>) -> Seq<DetectedDisplayView> {
    let (closed, open) = blocks_in(lines_of(stdout));
    with_open(closed, open)
}

impl DetectedDisplay {
    /// The most stable handle available for this display.
    pub fn stable_id(&self) -> (r: String)
        ensures
            r@ == self.deep_view().stable_id(),
    {
        match &self.drm_connector {
            Some(c) => c.clone(),
            None => match &self.i2c_bus {
                Some(b) => b.clone(),
                None => match self.display_number {
                    Some(n) => cat2("display-", dec(n as u64).as_str()),
                    None => cat2("display-", "unknown"),
                },
            },
        }
    }

    fn opened(number: Option<u32>, invalid: bool, line: &[char]) -> (r: DetectedDisplay)
        ensures
            r.deep_view() == DetectedDisplayView::opened(number, invalid, line@),
    {
        DetectedDisplay {
            display_number: number,
            i2c_bus: None,
            drm_connector: None,
            manufacturer: None,
            model: None,
            serial: None,
            invalid,
            raw: cat2(string_of(line).as_str(), "\n"),
        }
    }

    fn tell(&mut self, key: &[char], value: &[char])
        ensures
            final(self).deep_view() == old(self).deep_view().told(key@, value@),
    {
        let k = string_of(key);
        if crate::text::same(k.as_str(), "I2C bus") {
            self.i2c_bus = Some(string_of(value));
        } else if crate::text::same(k.as_str(), "DRM connector") {
            self.drm_connector = Some(string_of(value));
        } else if crate::text::same(k.as_str(), "Mfg id") {
            let found = words(value);
            let id: &[char] = if found.len() > 0 {
                assert(pieces(found@)[0] == found[0]@);
                found[0]
            } else {
                value
            };
            self.manufacturer = Some(string_of(trim(strip_end(id, '-'))));
        } else if crate::text::same(k.as_str(), "Model") {
            self.model = Some(string_of(value));
        } else if crate::text::same(k.as_str(), "Serial number") {
            self.serial = Some(string_of(value));
        }
    }

    fn add_line(&mut self, line: &[char])
        ensures
            final(self).deep_view() == old(self).deep_view().with_line(line@),
    {
        self.raw = cat3(self.raw.as_str(), string_of(line).as_str(), "\n");
        let t = trim(line);
        match cut(t, ':') {
            None => {},
            Some((key, value)) => {
                let v = trim(value);
                if v.len() > 0 {
                    self.tell(trim(key), v);
                    if contains_str(t, "does not support DDC") {
                        self.invalid = true;
                    }
                }
            },
        }
    }
}

fn open_block(line: &[char]) -> (r: Option<DetectedDisplay>)
    ensures
        match r {
            Some(d) => block_opened(line@) == Some(d.deep_view()),
            None => block_opened(line@) is None,
        },
{
    let t = trim(line);
    match strip_prefix(t, "Display ") {
        Some(rest) => {
            let number: Option<u32> = match parse_unsigned(trim(rest), 10, u32::MAX) {
                Ok(n) => Some(n),
                Err(_) => None,
            };
            Some(DetectedDisplay::opened(number, false, line))
        },
        None => {
            if starts_with_str(t, "Invalid display") {
                Some(DetectedDisplay::opened(None, true, line))
            } else {
                None
            }
        },
    }
}

pub open spec fn opt_display(o: Option<DetectedDisplay>) -> Option<DetectedDisplayView> {
    match o {
        Some(d) => Some(d.deep_view()),
        None => None,
    }
}

/// A text that is not blank begins with something.
proof fn lemma_not_blank(line: Seq<char>)
    ensures
        trimmed(line).len() > 0 ==> line.len() > 0,
{
    if line.len() == 0 {
        assert(trimmed(line) =~= line);
    }
}

/// Parse `ddcutil detect` (with or without `--verbose`).
pub fn parse_detect(stdout: &str) -> (r: Result<Vec<DetectedDisplay>, ParseError>)
    ensures
        match r {
            Ok(v) => v.deep_view() == displays_in(stdout@) && v@.len() > 0,
            Err(e) => displays_in(stdout@).len() == 0 && e.deep_view()
                == ParseErrorView::NoDisplays(stdout@),
        },
{
    let cs = chars_of(stdout);
    let all = lines(cs.as_slice());
    let ghost ls = lines_of(stdout@);
    let mut displays: Vec<DetectedDisplay> = Vec::new();
    let mut current: Option<DetectedDisplay> = None;
    let mut i: usize = 0;
    assert(ls.take(0) =~= Seq::<Seq<char>>::empty());
    assert(displays.deep_view() =~= blocks_in(ls.take(0)).0);
    while i < all.len()
        invariant
            i <= all.len(),
            ls == pieces(all@),
            (displays.deep_view(), opt_display(current)) == blocks_in(ls.take(i as int)),
        decreases all.len() - i,
    {
        let line: &[char] = all[i];
        proof {
            let next = ls.take(i as int + 1);
            assert(next.drop_last() =~= ls.take(i as int));
            assert(next.last() == line@);
            lemma_not_blank(line@);
        }
        let ghost before = displays.deep_view();
        if trim(line).len() > 0 && !is_white_space(line[0]) {
            match current {
                Some(d) => {
                    let ghost dv = d.deep_view();
                    displays.push(d);
                    assert(displays.deep_view() =~= before.push(dv));
                },
                None => {},
            }
            current = open_block(line);
        } else {
            current = match current {
                Some(d) => {
                    let mut longer = d;
                    longer.add_line(line);
                    Some(longer)
                },
                None => None,
            };
        }
        i += 1;
    }
    assert(ls.take(ls.len() as int) =~= ls);
    let ghost before = displays.deep_view();
    match current {
        Some(d) => {
            let ghost dv = d.deep_view();
            displays.push(d);
            assert(displays.deep_view() =~= before.push(dv));
        },
        None => {},
    }
    if displays.len() == 0 {
        return Err(ParseError::NoDisplays(stdout.to_owned()));
    }
    Ok(displays)
}

// ---------------------------------------------------------------------------
// getvcp
// ---------------------------------------------------------------------------

/// The code that hexadecimal digits stand for, or that they stand for none.
pub open spec fn code_from_hex(hex: Seq<char>, context: Seq<char>) -> Result<
    InputCode,
    ParseErrorView,
> {
    match unsigned_value(hex, 16, 255) {
        Ok(v) => Ok(InputCode(v as u8)),
        Err(_) => Err(ParseErrorView::BadVcpValue(context)),
    }
}

pub open spec fn code_result(r: Result<InputCode, ParseError>) -> Result<
    InputCode,
    ParseErrorView,
> {
    match r {
        Ok(c) => Ok(c),
        Err(e) => Err(e.deep_view()),
    }
}

fn hex_to_code(hex: &[char], context: &[char]) -> (r: Result<InputCode, ParseError>)
    ensures
        code_result(r) == code_from_hex(hex@, context@),
{
    match parse_unsigned(hex, 16, 255) {
        Ok(v) => Ok(InputCode(v as u8)),
        Err(_) => Err(ParseError::BadVcpValue(string_of(context))),
    }
}

/// What the terse form says behind `VCP 60 `: the last word is `x` and the
/// digits.
pub open spec fn terse_code(rest: Seq<char>, context: Seq<char>) -> Result<
    InputCode,
    ParseErrorView,
> {
    let found = words_of(rest);
    if found.len() == 0 {
        Err(ParseErrorView::BadVcpValue(context))
    } else {
        match after_prefix(found.last(), "x"@) {
            Some(hex) => code_from_hex(hex, context),
            None => Err(ParseErrorView::BadVcpValue(context)),
        }
    }
}

/// What the verbose form says: the digits behind the first `sl=0x`.
pub open spec fn verbose_code(t: Seq<char>) -> Result<InputCode, ParseErrorView> {
    if has_text(t, "sl=0x"@) {
        let at = choose|at: int| first_at(t, "sl=0x"@, 0, at);
        code_from_hex(leading_hex(t.skip(at + 5)), t)
    } else {
        Err(ParseErrorView::BadVcpValue(t))
    }
}

/// What a line says of the input, if it speaks of feature 0x60 at all.
pub open spec fn code_on_line(line: Seq<char>) -> Option<Result<InputCode, ParseErrorView>> {
    let t = trimmed(line);
    match after_prefix(t, "VCP 60 "@) {
        Some(rest) => Some(terse_code(rest, t)),
        None => if "VCP code 0x60"@.is_prefix_of(t) {
            Some(verbose_code(t))
        } else {
            None
        },
    }
}

/// What the first line that speaks of feature 0x60 says.
pub open spec fn vcp_input(stdout: Seq<char>) -> Result<InputCode, ParseErrorView> {
    match first_some(lines_of(stdout), |line: Seq<char>| code_on_line(line)) {
        Some(r) => r,
        None => Err(ParseErrorView::NotInputSource(stdout)),
    }
}

fn read_terse(rest: &[char], context: &[char]) -> (r: Result<InputCode, ParseError>)
    ensures
        code_result(r) == terse_code(rest@, context@),
{
    let found = words(rest);
    if found.len() == 0 {
        return Err(ParseError::BadVcpValue(string_of(context)));
    }
    let last: &[char] = found[found.len() - 1];
    assert(last@ == words_of(rest@).last()) by {
        assert(pieces(found@)[found@.len() - 1] == found@[found@.len() - 1]@);
    }
    match strip_prefix(last, "x") {
        Some(hex) => hex_to_code(hex, context),
        None => Err(ParseError::BadVcpValue(string_of(context))),
    }
}

fn read_verbose(t: &[char]) -> (r: Result<InputCode, ParseError>)
    ensures
        code_result(r) == verbose_code(t@),
{
    let mark = chars_of("sl=0x");
    proof {
        reveal_strlit("sl=0x");
    }
    match find_from(t, mark.as_slice(), 0) {
        None => {
            assert(!has_text(t@, "sl=0x"@));
            Err(ParseError::BadVcpValue(string_of(t)))
        },
        Some(at) => {
            proof {
                assert(occurs_at(t@, "sl=0x"@, at as int));
                let chosen = choose|c: int| first_at(t@, "sl=0x"@, 0, c);
                assert(first_at(t@, "sl=0x"@, 0, at as int));
                assert(chosen == at) by {
                    if chosen < at {
                        assert(occurs_at(t@, "sl=0x"@, chosen));
                    } else if at < chosen {
                        assert(occurs_at(t@, "sl=0x"@, at as int));
                    }
                }
            }
            let end: usize = t.len();
            assert(at + 5 <= end);
            let digits = vstd::slice::slice_subrange(t, at + 5, end);
            assert(digits@ =~= t@.skip(at as int + 5));
            hex_to_code(take_hex(digits), t)
        },
    }
}

/// Parse `getvcp 60`, in either the terse or the verbose form.
///
/// Terse:   `VCP 60 SNC x0f`
/// Verbose: `VCP code 0x60 (Input Source                  ): DisplayPort-1 (sl=0x0f)`
pub fn parse_getvcp_input(stdout: &str) -> (r: Result<InputCode, ParseError>)
    ensures
        code_result(r) == vcp_input(stdout@),
{
    let cs = chars_of(stdout);
    let all = lines(cs.as_slice());
    let ghost ls = lines_of(stdout@);
    let ghost f = |line: Seq<char>| code_on_line(line);
    let mut i: usize = 0;
    while i < all.len()
        invariant
            i <= all.len(),
            ls == pieces(all@),
            ls == lines_of(stdout@),
            f == (|line: Seq<char>| code_on_line(line)),
            forall|j: int| 0 <= j < i ==> f(#[trigger] ls[j]) is None,
        decreases all.len() - i,
    {
        let t = trim(all[i]);
        assert(ls[i as int] == all[i as int]@);
        match strip_prefix(t, "VCP 60 ") {
            Some(rest) => {
                let r = read_terse(rest, t);
                proof {
                    lemma_first_some_here(ls, f, i as int);
                }
                return r;
            },
            None => {},
        }
        if starts_with_str(t, "VCP code 0x60") {
            let r = read_verbose(t);
            proof {
                lemma_first_some_here(ls, f, i as int);
            }
            return r;
        }
        i += 1;
    }
    proof {
        lemma_first_some_none(ls, f);
    }
    Err(ParseError::NotInputSource(stdout.to_owned()))
}

// ---------------------------------------------------------------------------
// capabilities
// ---------------------------------------------------------------------------

#[derive(Debug, PartialEq, Eq)]
pub struct ParsedCapabilities {
    pub feature_present: bool,
    pub options: Vec<(InputCode, String)>,
    pub model: Option<String>,
    pub mccs_version: Option<String>,
}

pub struct ParsedCapabilitiesView {
    pub feature_present: bool,
    pub options: Seq<(InputCode, Seq<char>)>,
    pub model: Option<Seq<char>>,
    pub mccs_version: Option<Seq<char>>,
}

impl DeepView for ParsedCapabilities {
    type V = ParsedCapabilitiesView;

    open spec fn deep_view(&self) -> ParsedCapabilitiesView {
        ParsedCapabilitiesView {
            feature_present: self.feature_present,
            options: options_view(self.options@),
            model: opt_text(self.model),
            mccs_version: opt_text(self.mccs_version),
        }
    }
}

/// What has been read so far, and where in the text the reading is.
pub struct Reading {
    pub parsed: ParsedCapabilitiesView,
    pub in_feature_60: bool,
    pub in_values: bool,
}

/// The entry on a line of values, if the line holds one: a code of at most two
/// hexadecimal digits, a colon and a label.
pub open spec fn value_on_line(t: Seq<char>) -> Option<(Seq<char>, Seq<char>)> {
    match cut_at(t, ':') {
        Some((code, label)) if trimmed(code).len() <= 2 && all_hex(trimmed(code)) => Some(
            (trimmed(code), trimmed(label)),
        ),
        _ => None,
    }
}

/// The reading after one more line.
pub open spec fn line_read(state: Reading, line: Seq<char>) -> Result<Reading, ParseErrorView> {
    let t = trimmed(line);
    if t.len() == 0 {
        Ok(state)
    } else if "Model:"@.is_prefix_of(t) {
        Ok(
            Reading {
                parsed: ParsedCapabilitiesView {
                    model: Some(trimmed(t.skip("Model:"@.len() as int))),
                    ..state.parsed
                },
                ..state
            },
        )
    } else if "MCCS version:"@.is_prefix_of(t) {
        Ok(
            Reading {
                parsed: ParsedCapabilitiesView {
                    mccs_version: Some(trimmed(t.skip("MCCS version:"@.len() as int))),
                    ..state.parsed
                },
                ..state
            },
        )
    } else if "Feature:"@.is_prefix_of(t) {
        // Any new feature ends the 0x60 block.
        let found = words_of(t.skip("Feature:"@.len() as int));
        let is_60 = found.len() > 0 && same_ignoring_case(found[0], "60"@);
        Ok(
            Reading {
                parsed: ParsedCapabilitiesView {
                    feature_present: state.parsed.feature_present || is_60,
                    ..state.parsed
                },
                in_feature_60: is_60,
                in_values: false,
            },
        )
    } else if state.in_feature_60 && "Values:"@.is_prefix_of(t) {
        Ok(Reading { in_values: true, ..state })
    } else if state.in_feature_60 && state.in_values {
        match value_on_line(t) {
            Some((code, label)) => match code_from_hex(code, t) {
                Ok(c) => Ok(
                    Reading {
                        parsed: ParsedCapabilitiesView {
                            options: state.parsed.options.push((c, label)),
                            ..state.parsed
                        },
                        ..state
                    },
                ),
                Err(e) => Err(e),
            },
            None => Ok(state),
        }
    } else {
        Ok(state)
    }
}

/// The reading of some lines; the first that cannot be read ends it.
pub open spec fn lines_read(ls: Seq<Seq<char>>) -> Result<Reading, ParseErrorView>
    decreases ls.len(),
{
    if ls.len() == 0 {
        Ok(
            Reading {
                parsed: ParsedCapabilitiesView {
                    feature_present: false,
                    options: Seq::empty(),
                    model: None,
                    mccs_version: None,
                },
                in_feature_60: false,
                in_values: false,
            },
        )
    } else {
        match lines_read(ls.drop_last()) {
            Ok(state) => line_read(state, ls.last()),
            Err(e) => Err(e),
        }
    }
}

/// What a capabilities text says.
pub open spec fn capabilities_in(stdout: Seq<char>) -> Result<
    ParsedCapabilitiesView,
    ParseErrorView,
> {
    match lines_read(lines_of(stdout)) {
        Ok(state) => Ok(state.parsed),
        Err(e) => Err(e),
    }
}

/// What cannot be read stays so, whatever follows.
proof fn lemma_lines_read_fails(ls: Seq<Seq<char>>, n: int)
    requires
        0 <= n <= ls.len(),
        lines_read(ls.take(n)) is Err,
    ensures
        lines_read(ls) == lines_read(ls.take(n)),
    decreases ls.len(),
{
    if n == ls.len() {
        assert(ls.take(n) =~= ls);
    } else {
        assert(ls.drop_last().take(n) =~= ls.take(n));
        lemma_lines_read_fails(ls.drop_last(), n);
    }
}

/// Parse the human-readable `ddcutil capabilities` output.
///
/// The `--terse` form returns the raw MCCS string instead, which should be
/// parsed with [`crate::mccs`]; that parser is the more trustworthy of the
/// two, and the backend cross-checks them.
pub fn parse_capabilities(stdout: &str) -> (r: Result<ParsedCapabilities, ParseError>)
    ensures
        match r {
            Ok(p) => capabilities_in(stdout@) == Ok::<ParsedCapabilitiesView, ParseErrorView>(
                p.deep_view(),
            ),
            Err(e) => capabilities_in(stdout@) == Err::<ParsedCapabilitiesView, ParseErrorView>(
                e.deep_view(),
            ),
        },
{
    let cs = chars_of(stdout);
    let all = lines(cs.as_slice());
    let ghost ls = lines_of(stdout@);
    let mut parsed = ParsedCapabilities {
        feature_present: false,
        options: Vec::new(),
        model: None,
        mccs_version: None,
    };
    let mut in_feature_60: bool = false;
    let mut in_values: bool = false;
    let mut i: usize = 0;
    assert(ls.take(0) =~= Seq::<Seq<char>>::empty());
    assert(parsed.deep_view().options =~= Seq::<(InputCode, Seq<char>)>::empty());
    while i < all.len()
        invariant
            i <= all.len(),
            ls == pieces(all@),
            ls == lines_of(stdout@),
            lines_read(ls.take(i as int)) == Ok::<Reading, ParseErrorView>(
                Reading { parsed: parsed.deep_view(), in_feature_60, in_values },
            ),
        decreases all.len() - i,
    {
        let t = trim(all[i]);
        proof {
            let next = ls.take(i as int + 1);
            assert(next.drop_last() =~= ls.take(i as int));
            assert(next.last() == all[i as int]@);
        }
        if t.len() == 0 {
        } else if let Some(rest) = strip_prefix(t, "Model:") {
            parsed.model = Some(string_of(trim(rest)));
        } else if let Some(rest) = strip_prefix(t, "MCCS version:") {
            parsed.mccs_version = Some(string_of(trim(rest)));
        } else if let Some(rest) = strip_prefix(t, "Feature:") {
            let found = words(rest);
            in_feature_60 = false;
            if found.len() > 0 {
                assert(pieces(found@)[0] == found@[0]@);
                let sixty = chars_of("60");
                in_feature_60 = same_chars_ignoring_case(found[0], sixty.as_slice());
            }
            in_values = false;
            if in_feature_60 {
                parsed.feature_present = true;
            }
        } else if in_feature_60 && starts_with_str(t, "Values:") {
            in_values = true;
        } else if in_feature_60 && in_values {
            if let Some((code_text, label)) = cut(t, ':') {
                let code_text = trim(code_text);
                if code_text.len() <= 2 && is_all_hex(code_text) {
                    match hex_to_code(code_text, t) {
                        Ok(code) => {
                            let ghost before = parsed.options@;
                            let name = string_of(trim(label));
                            let ghost nv = name@;
                            parsed.options.push((code, name));
                            assert(options_view(parsed.options@) =~= options_view(before).push(
                                (code, nv),
                            ));
                        },
                        Err(e) => {
                            proof {
                                lemma_lines_read_fails(ls, i as int + 1);
                            }
                            return Err(e);
                        },
                    }
                }
            }
        }
        i += 1;
    }
    assert(ls.take(ls.len() as int) =~= ls);
    Ok(parsed)
}

// ---------------------------------------------------------------------------
// What the parsers promise
// ---------------------------------------------------------------------------

/// Every option that is read stands in the block of feature 0x60: without one
/// there are no options.
pub proof fn law_values_of_other_features_are_no_inputs(stdout: Seq<char>)
    ensures
        capabilities_in(stdout) matches Ok(p) ==> (p.options.len() > 0 ==> p.feature_present),
{
    lemma_options_need_the_feature(lines_of(stdout));
}

proof fn lemma_options_need_the_feature(ls: Seq<Seq<char>>)
    ensures
        lines_read(ls) matches Ok(state) ==> (state.parsed.options.len() > 0
            ==> state.parsed.feature_present) && (state.in_feature_60
            ==> state.parsed.feature_present),
    decreases ls.len(),
{
    if ls.len() > 0 {
        lemma_options_need_the_feature(ls.drop_last());
    }
}

// ---------------------------------------------------------------------------
// Laws of reading ddcutil
// ---------------------------------------------------------------------------

proof fn lemma_digits_no_space(s: Seq<char>, base: int)
    requires
        all_digits(s, base),
    ensures
        forall|i: int| 0 <= i < s.len() ==> !white_space(#[trigger] s[i]),
{
    assert forall|i: int| 0 <= i < s.len() implies !white_space(#[trigger] s[i]) by {
        assert(0 <= digit_worth(s[i]));
    }
}

/// The terse line of feature 0x60 is worth the hexadecimal digits behind the x
/// of its last word, whatever stands between.
pub proof fn law_a_terse_value_is_worth_its_digits(
    line: Seq<char>,
    from: int,
    to: int,
    kind: Seq<char>,
    digits: Seq<char>,
)
    requires
        cut_out(line, from, to),
        line.subrange(from, to) == "VCP 60 "@ + (kind + seq![' '] + (seq!['x'] + digits)),
        digits.len() > 0,
        all_digits(digits, 16),
    ensures
        worth(digits, 16) <= 255 ==> code_on_line(line) == Some(
            Ok::<InputCode, ParseErrorView>(InputCode(worth(digits, 16) as u8)),
        ),
        worth(digits, 16) > 255 ==> (code_on_line(line) matches Some(r) && r is Err),
{
    law_a_text_is_trimmed_one_way(line, from, to);
    let word = seq!['x'] + digits;
    let rest = kind + seq![' '] + word;
    lemma_after_prefix("VCP 60 "@, rest);
    lemma_digits_no_space(digits, 16);
    assert forall|i: int| 0 <= i < word.len() implies !white_space(#[trigger] word[i]) by {
        if i > 0 {
            assert(word[i] == digits[i - 1]);
        }
    }
    law_words_part_at_white_space(kind, ' ', word);
    law_a_text_without_white_space_is_a_word(word);
    assert(words_of(rest).last() == word);
    reveal_strlit("x");
    assert("x"@ =~= seq!['x']);
    lemma_after_prefix("x"@, digits);
    assert(0 <= digit_worth(digits[0]));
    law_digits_are_read_for_their_worth(digits, 16, 255);
}

/// The digits that a text begins with end at the first character that is none.
proof fn lemma_leading_hex(digits: Seq<char>, tail: Seq<char>)
    requires
        all_digits(digits, 16),
        tail.len() > 0 ==> !(0 <= digit_worth(tail[0]) < 16),
    ensures
        leading_hex(digits + tail) == digits,
{
    let rest = digits + tail;
    let n = digits.len() as int;
    assert forall|i: int| 0 <= i < n implies !not_hex()(#[trigger] rest[i]) by {
        assert(rest[i] == digits[i]);
        assert(0 <= digit_worth(digits[i]) < 16);
    }
    if tail.len() > 0 {
        assert(rest[n] == tail[0]);
        assert(not_hex()(rest[n]));
        lemma_first_index_here(rest, not_hex(), n);
        assert(rest.take(n) =~= digits);
    } else {
        lemma_first_index_none(rest, not_hex());
        assert(rest =~= digits);
    }
}

proof fn lemma_verbose_is_not_terse(t: Seq<char>)
    requires
        "VCP code 0x60"@.is_prefix_of(t),
    ensures
        !"VCP 60 "@.is_prefix_of(t),
{
    reveal_strlit("VCP code 0x60");
    reveal_strlit("VCP 60 ");
    assert(t.subrange(0, 13)[4] == t[4]);
    assert("VCP code 0x60"@[4] == 'c' && "VCP 60 "@[4] == '6');
    if "VCP 60 "@.is_prefix_of(t) {
        assert(t.subrange(0, 7)[4] == t[4]);
    }
}

/// The verbose line of feature 0x60 is worth the hexadecimal digits behind the
/// first `sl=0x`, up to the first character that is none.
pub proof fn law_a_verbose_value_is_worth_its_digits(
    line: Seq<char>,
    from: int,
    to: int,
    middle: Seq<char>,
    digits: Seq<char>,
    tail: Seq<char>,
)
    requires
        cut_out(line, from, to),
        line.subrange(from, to) == "VCP code 0x60"@ + middle + ("sl=0x"@ + digits + tail),
        first_at(line.subrange(from, to), "sl=0x"@, 0, ("VCP code 0x60"@ + middle).len() as int),
        digits.len() > 0,
        all_digits(digits, 16),
        tail.len() > 0 ==> !(0 <= digit_worth(tail[0]) < 16),
    ensures
        worth(digits, 16) <= 255 ==> code_on_line(line) == Some(
            Ok::<InputCode, ParseErrorView>(InputCode(worth(digits, 16) as u8)),
        ),
        worth(digits, 16) > 255 ==> (code_on_line(line) matches Some(r) && r is Err),
{
    law_a_text_is_trimmed_one_way(line, from, to);
    let t = trimmed(line);
    let behind = "sl=0x"@ + digits + tail;
    lemma_after_prefix("VCP code 0x60"@, middle + behind);
    assert("VCP code 0x60"@ + (middle + behind) =~= t);
    lemma_verbose_is_not_terse(t);
    let n = ("VCP code 0x60"@ + middle).len() as int;
    let at = choose|at: int| first_at(t, "sl=0x"@, 0, at);
    assert(at == n);
    assert(t.skip(n + 5) =~= digits + tail) by {
        reveal_strlit("sl=0x");
    }
    lemma_leading_hex(digits, tail);
    assert(0 <= digit_worth(digits[0]));
    law_digits_are_read_for_their_worth(digits, 16, 255);
}

/// A line speaks of the input only where it begins as ddcutil begins one, and
/// the first line that does decides.
pub proof fn law_the_first_line_of_the_input_decides(stdout: Seq<char>, i: int)
    requires
        0 <= i < lines_of(stdout).len(),
        forall|j: int|
            0 <= j < i ==> {
                let t = trimmed(#[trigger] lines_of(stdout)[j]);
                !"VCP 60 "@.is_prefix_of(t) && !"VCP code 0x60"@.is_prefix_of(t)
            },
        "VCP 60 "@.is_prefix_of(trimmed(lines_of(stdout)[i])) || "VCP code 0x60"@.is_prefix_of(
            trimmed(lines_of(stdout)[i]),
        ),
    ensures
        code_on_line(lines_of(stdout)[i]) == Some(vcp_input(stdout)),
        !(vcp_input(stdout) matches Err(ParseErrorView::NotInputSource(_))),
{
    let f = |line: Seq<char>| code_on_line(line);
    assert forall|j: int| 0 <= j < i implies f(#[trigger] lines_of(stdout)[j]) is None by {}
    lemma_first_some_reaches(lines_of(stdout), f, i);
}

/// Output without such a line says that the monitor has no such feature.
pub proof fn law_no_line_of_the_input_is_no_input(stdout: Seq<char>)
    requires
        forall|j: int|
            0 <= j < lines_of(stdout).len() ==> {
                let t = trimmed(#[trigger] lines_of(stdout)[j]);
                !"VCP 60 "@.is_prefix_of(t) && !"VCP code 0x60"@.is_prefix_of(t)
            },
    ensures
        vcp_input(stdout) == Err::<InputCode, ParseErrorView>(
            ParseErrorView::NotInputSource(stdout),
        ),
{
    let f = |line: Seq<char>| code_on_line(line);
    assert forall|j: int| 0 <= j < lines_of(stdout).len() implies f(
        #[trigger] lines_of(stdout)[j],
    ) is None by {}
    lemma_first_some_none(lines_of(stdout), f);
}

/// A line of a display is a key up to its first colon and a value behind it,
/// each without the white space round it.
pub proof fn law_a_line_is_a_key_and_a_value(
    line: Seq<char>,
    from: int,
    to: int,
    key: Seq<char>,
    value: Seq<char>,
)
    requires
        cut_out(line, from, to),
        line.subrange(from, to) == key + seq![':'] + value,
        !key.contains(':'),
    ensures
        trimmed(value).len() > 0 ==> pair_in(line) == Some((trimmed(key), trimmed(value))),
        trimmed(value).len() == 0 ==> pair_in(line) is None,
{
    law_a_text_is_trimmed_one_way(line, from, to);
    law_a_text_is_cut_at_the_first(key, ':', value);
}

/// Each key fills the field it names and leaves the others; a display becomes
/// unusable where a line says that it does not support DDC, and stays so.
pub proof fn law_a_key_fills_its_field(
    d: DetectedDisplayView,
    line: Seq<char>,
    key: Seq<char>,
    value: Seq<char>,
)
    requires
        pair_in(line) == Some((key, value)),
    ensures
        ({
            let after = d.with_line(line);
            &&& after.display_number == d.display_number
            &&& after.i2c_bus == if key == "I2C bus"@ {
                Some(value)
            } else {
                d.i2c_bus
            }
            &&& after.drm_connector == if key == "DRM connector"@ {
                Some(value)
            } else {
                d.drm_connector
            }
            &&& after.model == if key == "Model"@ {
                Some(value)
            } else {
                d.model
            }
            &&& after.serial == if key == "Serial number"@ {
                Some(value)
            } else {
                d.serial
            }
            &&& key != "Mfg id"@ ==> after.manufacturer == d.manufacturer
            &&& after.invalid <==> d.invalid || has_text(trimmed(line), "does not support DDC"@)
        }),
{
    reveal_strlit("I2C bus");
    reveal_strlit("DRM connector");
    reveal_strlit("Mfg id");
    reveal_strlit("Model");
    reveal_strlit("Serial number");
    assert("I2C bus"@.len() == 7 && "DRM connector"@.len() == 13 && "Mfg id"@.len() == 6
        && "Model"@.len() == 5);
    assert("Serial number"@.len() == 13);
    assert("Serial number"@[0] == 'S' && "DRM connector"@[0] == 'D');
}

/// A manufacturer is the first word of the line, without the hyphens it may end
/// in.
pub proof fn law_a_manufacturer_is_one_word(
    d: DetectedDisplayView,
    line: Seq<char>,
    id: Seq<char>,
    hyphens: nat,
    rest: Seq<char>,
)
    requires
        pair_in(line) == Some(("Mfg id"@, id + repeated('-', hyphens) + seq![' '] + rest)),
        id.len() > 0,
        id.last() != '-',
        forall|i: int| 0 <= i < id.len() ==> !white_space(#[trigger] id[i]),
    ensures
        d.with_line(line).manufacturer == Some(id),
{
    reveal_strlit("I2C bus");
    reveal_strlit("DRM connector");
    reveal_strlit("Mfg id");
    assert("I2C bus"@.len() == 7 && "DRM connector"@.len() == 13 && "Mfg id"@.len() == 6);
    let word = id + repeated('-', hyphens);
    assert forall|i: int| 0 <= i < word.len() implies !white_space(#[trigger] word[i]) by {
        if i < id.len() {
            assert(word[i] == id[i]);
        }
    }
    law_words_part_at_white_space(word, ' ', rest);
    law_a_text_without_white_space_is_a_word(word);
    assert(first_word(word + seq![' '] + rest) == word);
    law_an_ending_is_taken_off(id, '-', hyphens);
    assert(!white_space(id[0]) && !white_space(id[id.len() - 1]));
    law_a_text_is_trimmed_one_way(id, 0, id.len() as int);
    assert(id.subrange(0, id.len() as int) =~= id);
}

/// Whether a line begins a display: it says something, is not indented, and
/// names one, usable or not.
pub open spec fn names_a_display(line: Seq<char>) -> bool {
    &&& line.len() > 0
    &&& !white_space(line[0])
    &&& "Display "@.is_prefix_of(trimmed(line)) || "Invalid display"@.is_prefix_of(trimmed(line))
}

/// There are as many displays as there are lines that begin one.
pub proof fn law_every_display_named_is_found(stdout: Seq<char>)
    ensures
        displays_in(stdout).len() == lines_of(stdout).filter(
            |line: Seq<char>| names_a_display(line),
        ).len(),
{
    lemma_blocks_counted(lines_of(stdout));
}

proof fn lemma_blocks_counted(ls: Seq<Seq<char>>)
    ensures
        with_open(blocks_in(ls).0, blocks_in(ls).1).len() == ls.filter(
            |line: Seq<char>| names_a_display(line),
        ).len(),
    decreases ls.len(),
{
    reveal(Seq::filter);
    if ls.len() > 0 {
        lemma_blocks_counted(ls.drop_last());
        let line = ls.last();
        if line.len() > 0 {
            law_a_blank_text_is_all_white_space(line);
        }
        if starts_block(line) {
            assert(block_opened(line) is Some <==> names_a_display(line));
        } else {
            if names_a_display(line) {
                assert(trimmed(line).len() == 0);
                assert(white_space(line[0]));
            }
        }
    }
}

/// A display begins with the number it is given, usable unless it is named as
/// invalid, and with nothing else known of it.
pub proof fn law_a_display_begins_with_its_number(
    line: Seq<char>,
    from: int,
    to: int,
    digits: Seq<char>,
)
    requires
        cut_out(line, from, to),
        line.subrange(from, to) == "Display "@ + digits,
        digits.len() > 0,
        all_digits(digits, 10),
        worth(digits, 10) <= u32::MAX,
    ensures
        block_opened(line) matches Some(d) && {
            &&& d.display_number == Some(worth(digits, 10) as u32)
            &&& !d.invalid
            &&& d.i2c_bus is None && d.drm_connector is None && d.manufacturer is None
            &&& d.model is None && d.serial is None
        },
{
    law_a_text_is_trimmed_one_way(line, from, to);
    lemma_after_prefix("Display "@, digits);
    lemma_digits_no_space(digits, 10);
    assert(!white_space(digits[0]) && !white_space(digits[digits.len() - 1]));
    law_a_text_is_trimmed_one_way(digits, 0, digits.len() as int);
    assert(digits.subrange(0, digits.len() as int) =~= digits);
    assert(0 <= digit_worth(digits[0]));
    law_digits_are_read_for_their_worth(digits, 10, u32::MAX as nat);
}

/// A display named as invalid has no number and is not usable.
pub proof fn law_an_invalid_display_is_unusable(line: Seq<char>)
    requires
        "Invalid display"@.is_prefix_of(trimmed(line)),
    ensures
        block_opened(line) matches Some(d) && d.invalid && d.display_number is None,
{
    reveal_strlit("Invalid display");
    reveal_strlit("Display ");
    let t = trimmed(line);
    assert(t.subrange(0, 15)[0] == t[0]);
    assert("Invalid display"@[0] == 'I' && "Display "@[0] == 'D');
    if "Display "@.is_prefix_of(t) {
        assert(t.subrange(0, 8)[0] == t[0]);
    }
}

/// A display is known by its connector, without one by its bus, and without
/// either by its number.
pub proof fn law_a_display_is_known_by_its_connector(d: DetectedDisplayView)
    ensures
        d.drm_connector matches Some(c) ==> d.stable_id() == c,
        d.drm_connector is None ==> (d.i2c_bus matches Some(b) ==> d.stable_id() == b),
        d.drm_connector is None && d.i2c_bus is None ==> (d.display_number matches Some(n)
            ==> d.stable_id() == "display-"@ + decimal(n as nat)),
{
}

proof fn lemma_feature_is_no_other_heading(t: Seq<char>)
    requires
        "Feature:"@.is_prefix_of(t),
    ensures
        !"Model:"@.is_prefix_of(t),
        !"MCCS version:"@.is_prefix_of(t),
{
    reveal_strlit("Feature:");
    reveal_strlit("Model:");
    reveal_strlit("MCCS version:");
    assert(t.subrange(0, 8)[0] == t[0]);
    assert("Feature:"@[0] == 'F' && "Model:"@[0] == 'M' && "MCCS version:"@[0] == 'M');
    if "Model:"@.is_prefix_of(t) {
        assert(t.subrange(0, 6)[0] == t[0]);
    }
    if "MCCS version:"@.is_prefix_of(t) {
        assert(t.subrange(0, 13)[0] == t[0]);
    }
}

proof fn lemma_number_of_feature(number: Seq<char>, rest: Seq<char>)
    requires
        number.len() > 0,
        forall|i: int| 0 <= i < number.len() ==> !white_space(#[trigger] number[i]),
    ensures
        words_of(seq![' '] + (number + seq![' '] + rest)).len() > 0,
        words_of(seq![' '] + (number + seq![' '] + rest))[0] == number,
{
    let tail = seq![' '] + (number + seq![' '] + rest);
    law_words_part_at_white_space(Seq::empty(), ' ', number + seq![' '] + rest);
    assert(Seq::<char>::empty() + seq![' '] + (number + seq![' '] + rest) =~= tail);
    law_words_part_at_white_space(number, ' ', rest);
    law_a_text_without_white_space_is_a_word(number);
    assert(words_of(Seq::<char>::empty()) =~= Seq::empty());
}

proof fn lemma_is_sixty(number: Seq<char>)
    ensures
        same_ignoring_case(number, "60"@) <==> number == seq!['6', '0'],
{
    law_nothing_but_case_is_ignored(number, "60"@);
    reveal_strlit("60");
    assert("60"@ =~= seq!['6', '0']);
    if spelled_alike(number, "60"@) {
        assert(same_letter(number[0], "60"@[0]) && same_letter(number[1], "60"@[1]));
        assert(number =~= seq!['6', '0']);
    }
    if number == seq!['6', '0'] {
        assert(spelled_alike(number, "60"@));
    }
}

/// A heading of a feature begins feature 0x60 exactly where its first word says
/// so, and ends the values of any feature before it. It lists no input itself.
pub proof fn law_a_feature_begins_at_its_heading(
    state: Reading,
    line: Seq<char>,
    from: int,
    to: int,
    number: Seq<char>,
    rest: Seq<char>,
)
    requires
        cut_out(line, from, to),
        line.subrange(from, to) == "Feature:"@ + (seq![' '] + (number + seq![' '] + rest)),
        number.len() > 0,
        forall|i: int| 0 <= i < number.len() ==> !white_space(#[trigger] number[i]),
    ensures
        line_read(state, line) matches Ok(after) && {
            &&& after.in_feature_60 <==> number == seq!['6', '0']
            &&& !after.in_values
            &&& after.parsed.options == state.parsed.options
            &&& after.parsed.feature_present <==> state.parsed.feature_present || number == seq![
                '6',
                '0',
            ]
        },
{
    law_a_text_is_trimmed_one_way(line, from, to);
    let t = trimmed(line);
    let tail = seq![' '] + (number + seq![' '] + rest);
    lemma_after_prefix("Feature:"@, tail);
    assert("Feature:"@.len() > 0) by {
        reveal_strlit("Feature:");
    }
    lemma_feature_is_no_other_heading(t);
    lemma_number_of_feature(number, rest);
    lemma_is_sixty(number);
}

/// A line under the values of feature 0x60 is an input: its hexadecimal digits
/// before the colon are the code, and what is behind is the name.
pub proof fn law_a_value_is_an_input(
    state: Reading,
    line: Seq<char>,
    from: int,
    to: int,
    digits: Seq<char>,
    label: Seq<char>,
)
    requires
        cut_out(line, from, to),
        line.subrange(from, to) == digits + seq![':'] + label,
        1 <= digits.len() <= 2,
        all_digits(digits, 16),
    ensures
        state.in_feature_60 && state.in_values ==> (line_read(state, line) matches Ok(after) && {
            &&& after.parsed.options == state.parsed.options.push(
                (InputCode(worth(digits, 16) as u8), trimmed(label)),
            )
            &&& after.in_feature_60 && after.in_values
        }),
        !(state.in_feature_60 && state.in_values) ==> (line_read(state, line) matches Ok(after)
            && after.parsed.options == state.parsed.options),
{
    law_a_text_is_trimmed_one_way(line, from, to);
    let t = trimmed(line);
    let n = digits.len() as int;
    assert(t[n] == ':');
    assert(t[0] == digits[0]);
    assert(0 <= digit_worth(digits[0]) < 16);
    lemma_not_a_heading(t);
    assert forall|i: int| 0 <= i < digits.len() implies digits[i] != ':' by {
        assert(0 <= digit_worth(digits[i]));
    }
    law_a_text_is_cut_at_the_first(digits, ':', label);
    lemma_digits_no_space(digits, 16);
    assert(!white_space(digits[0]) && !white_space(digits[n - 1]));
    law_a_text_is_trimmed_one_way(digits, 0, n);
    assert(digits.subrange(0, n) =~= digits);
    assert forall|i: int| 0 <= i < digits.len() implies hex_digit(#[trigger] digits[i]) by {
        assert(0 <= digit_worth(digits[i]) < 16);
    }
    assert(all_hex(digits));
    law_digits_are_read_for_their_worth(digits, 16, 255);
    law_a_byte_is_read_for_its_worth(digits);
}

/// No heading has its colon within the first three characters.
proof fn lemma_not_a_heading(t: Seq<char>)
    requires
        t.len() >= 2,
        t[1] == ':' || t.len() >= 3 && t[2] == ':',
    ensures
        !"Model:"@.is_prefix_of(t),
        !"MCCS version:"@.is_prefix_of(t),
        !"Feature:"@.is_prefix_of(t),
        !"Values:"@.is_prefix_of(t),
{
    reveal_strlit("Model:");
    reveal_strlit("MCCS version:");
    reveal_strlit("Feature:");
    reveal_strlit("Values:");
    if "Model:"@.is_prefix_of(t) {
        assert(t.subrange(0, 6)[1] == t[1] && t.subrange(0, 6)[2] == t[2]);
        assert("Model:"@[1] == 'o' && "Model:"@[2] == 'd');
    }
    if "MCCS version:"@.is_prefix_of(t) {
        assert(t.subrange(0, 13)[1] == t[1] && t.subrange(0, 13)[2] == t[2]);
        assert("MCCS version:"@[1] == 'C' && "MCCS version:"@[2] == 'C');
    }
    if "Feature:"@.is_prefix_of(t) {
        assert(t.subrange(0, 8)[1] == t[1] && t.subrange(0, 8)[2] == t[2]);
        assert("Feature:"@[1] == 'e' && "Feature:"@[2] == 'a');
    }
    if "Values:"@.is_prefix_of(t) {
        assert(t.subrange(0, 7)[1] == t[1] && t.subrange(0, 7)[2] == t[2]);
        assert("Values:"@[1] == 'a' && "Values:"@[2] == 'l');
    }
}

/// The values of a feature begin at their own heading, and count only under
/// feature 0x60.
pub proof fn law_values_begin_at_their_heading(state: Reading, line: Seq<char>)
    requires
        "Values:"@.is_prefix_of(trimmed(line)),
    ensures
        line_read(state, line) matches Ok(after) && {
            &&& after.in_feature_60 == state.in_feature_60
            &&& after.in_values <==> state.in_values || state.in_feature_60
            &&& after.parsed == state.parsed
        },
{
    let t = trimmed(line);
    reveal_strlit("Model:");
    reveal_strlit("MCCS version:");
    reveal_strlit("Feature:");
    reveal_strlit("Values:");
    assert(t.subrange(0, 7)[0] == t[0]);
    assert("Values:"@[0] == 'V' && "Model:"@[0] == 'M');
    assert("MCCS version:"@[0] == 'M' && "Feature:"@[0] == 'F');
    if "Model:"@.is_prefix_of(t) {
        assert(t.subrange(0, 6)[0] == t[0]);
    }
    if "MCCS version:"@.is_prefix_of(t) {
        assert(t.subrange(0, 13)[0] == t[0]);
    }
    if "Feature:"@.is_prefix_of(t) {
        assert(t.subrange(0, 8)[0] == t[0]);
    }
}

} // verus!

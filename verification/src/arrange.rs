//! The decisions behind attaching, detaching and arranging displays, and
//! behind moving windows between them.
//!
//! Detaching a display is the only operation in this project that can leave
//! someone unable to see anything, and unlike a bad DDC write the monitor's
//! own buttons will not rescue them. So every detach goes through
//! [`crate::desktop::detach_is_safe`] first, the previous mode is captured
//! before the change so it can be put back exactly, and the internal laptop
//! panel is never a candidate.

use vstd::prelude::*;
use vstd::slice::slice_subrange;

use crate::desktop::{
    begins_either, detach_is_safe, detach_problem, either_begins, DesktopDisplay,
    DesktopDisplayView, DesktopError, DesktopErrorView, MovedWindow, MovedWindowView, Rect,
    SavedDisplayMode, SweepReport, SweepReportView,
};
use crate::digits::{dec, decimal, signed_dec, signed_decimal};
use crate::seqs::{
    first_index, lemma_filter_members, lemma_filter_take, lemma_filter_take_none, lemma_first_index_here,
    lemma_first_index_none,
};
use crate::text::{
    cat2, cat4, cat6, chars_of, copy_opt, has_text, lemma_has_text_between, lemma_upper_letter,
    opt_text, same, same_letter, string_of, texts, trim, trimmed, upper_all, uppered,
};

verus! {

// ---------------------------------------------------------------------------
// Answers of the system
// ---------------------------------------------------------------------------

/// What a system call's status means: 0 is success.
pub open spec fn call_problem(code: u32, operation: Seq<char>) -> Option<DesktopErrorView> {
    if code == 0 {
        None
    } else {
        Some(
            DesktopErrorView::OsCall {
                operation,
                detail: "Win32 error "@ + decimal(code as nat),
            },
        )
    }
}

pub open spec fn unit_problem(r: Result<(), DesktopError>) -> Option<DesktopErrorView> {
    match r {
        Ok(_) => None,
        Err(e) => Some(e.deep_view()),
    }
}

/// What a system call's status means: 0 is success.
pub fn check(code: u32, operation: &str) -> (r: Result<(), DesktopError>)
    ensures
        unit_problem(r) == call_problem(code, operation@),
{
    if code == 0 {
        Ok(())
    } else {
        Err(
            DesktopError::OsCall {
                operation: operation.to_owned(),
                detail: cat2("Win32 error ", dec(code as u64).as_str()),
            },
        )
    }
}

/// The status of a read whose buffers have become too small because the layout
/// changed underneath.
pub const INSUFFICIENT_BUFFER: u32 = 122;

/// What to do after the layout was read once.
#[derive(Debug, PartialEq, Eq)]
pub enum QueryStep {
    /// It was read.
    Done,
    /// It changed while it was being read: read it again.
    Again,
    Fail(DesktopError),
}

pub enum QueryStepView {
    Done,
    Again,
    Fail(DesktopErrorView),
}

impl DeepView for QueryStep {
    type V = QueryStepView;

    open spec fn deep_view(&self) -> QueryStepView {
        match self {
            QueryStep::Done => QueryStepView::Done,
            QueryStep::Again => QueryStepView::Again,
            QueryStep::Fail(e) => QueryStepView::Fail(e.deep_view()),
        }
    }
}

/// What to do after the layout was read, with so many attempts left after this
/// one.
pub open spec fn query_step_view(code: u32, left: nat) -> QueryStepView {
    if code == 0 {
        QueryStepView::Done
    } else if code != INSUFFICIENT_BUFFER {
        QueryStepView::Fail(call_problem(code, "QueryDisplayConfig"@)->0)
    } else if left > 0 {
        QueryStepView::Again
    } else {
        QueryStepView::Fail(
            DesktopErrorView::OsCall {
                operation: "QueryDisplayConfig"@,
                detail: "the display layout kept changing while it was being read"@,
            },
        )
    }
}

/// What to do after the layout was read. The buffers can change size between
/// sizing and reading if a display is hot-plugged in between, so that is tried
/// again a couple of times before giving up.
pub fn query_step(code: u32, left: usize) -> (r: QueryStep)
    ensures
        r.deep_view() == query_step_view(code, left as nat),
{
    match check(code, "QueryDisplayConfig") {
        Ok(_) => QueryStep::Done,
        Err(e) => {
            if code != INSUFFICIENT_BUFFER {
                QueryStep::Fail(e)
            } else if left > 0 {
                QueryStep::Again
            } else {
                QueryStep::Fail(
                    DesktopError::OsCall {
                        operation: "QueryDisplayConfig".to_owned(),
                        detail: "the display layout kept changing while it was being read".to_owned(),
                    },
                )
            }
        },
    }
}

/// A status of the older interface in words that a human can act on.
pub open spec fn change_reason(code: i32) -> Seq<char> {
    if code == 0 {
        "successful"@
    } else if code == 1 {
        "the change needs a restart to take effect"@
    } else if code == -1 {
        "the display driver rejected the request (DISP_CHANGE_FAILED)"@
    } else if code == -2 {
        "the mode was rejected (DISP_CHANGE_BADMODE); for a detach this usually means the display is the primary one, which Windows will not detach"@
    } else if code == -3 {
        "the settings could not be written to the registry (DISP_CHANGE_NOTUPDATED)"@
    } else if code == -4 {
        "invalid flags (DISP_CHANGE_BADFLAGS)"@
    } else if code == -5 {
        "invalid parameters (DISP_CHANGE_BADPARAM)"@
    } else if code == -6 {
        "the change conflicts with a dual-view setup (DISP_CHANGE_BADDUALVIEW)"@
    } else {
        "an unrecognised status was returned"@
    }
}

/// Turn a DISP_CHANGE_* return code into something a human can act on.
pub fn disp_change_reason(code: i32) -> (r: &'static str)
    ensures
        r@ == change_reason(code),
{
    if code == 0 {
        "successful"
    } else if code == 1 {
        "the change needs a restart to take effect"
    } else if code == -1 {
        "the display driver rejected the request (DISP_CHANGE_FAILED)"
    } else if code == -2 {
        "the mode was rejected (DISP_CHANGE_BADMODE); for a detach this usually means the display is the primary one, which Windows will not detach"
    } else if code == -3 {
        "the settings could not be written to the registry (DISP_CHANGE_NOTUPDATED)"
    } else if code == -4 {
        "invalid flags (DISP_CHANGE_BADFLAGS)"
    } else if code == -5 {
        "invalid parameters (DISP_CHANGE_BADPARAM)"
    } else if code == -6 {
        "the change conflicts with a dual-view setup (DISP_CHANGE_BADDUALVIEW)"
    } else {
        "an unrecognised status was returned"
    }
}

/// What a status of the older interface means, for a change that is staged on
/// one display or committed for all of them.
pub open spec fn change_problem(
    operation: Seq<char>,
    staged_on: Option<Seq<char>>,
    code: i32,
) -> Option<DesktopErrorView> {
    if code == 0 {
        None
    } else {
        Some(
            DesktopErrorView::OsCall {
                operation: match staged_on {
                    Some(name) => operation + " (staging "@ + name + ")"@,
                    None => operation + " (committing)"@,
                },
                detail: "ChangeDisplaySettingsEx returned "@ + signed_decimal(code as int) + ": "@
                    + change_reason(code),
            },
        )
    }
}

/// What a status of the older interface means.
pub fn check_change(operation: &str, staged_on: Option<&str>, code: i32) -> (r: Result<
    (),
    DesktopError,
>)
    ensures
        unit_problem(r) == change_problem(operation@, crate::types::opt_str(staged_on), code),
{
    if code == 0 {
        return Ok(());
    }
    let operation = match staged_on {
        Some(name) => cat4(operation, " (staging ", name, ")"),
        None => cat2(operation, " (committing)"),
    };
    Err(
        DesktopError::OsCall {
            operation,
            detail: cat4(
                "ChangeDisplaySettingsEx returned ",
                signed_dec(code).as_str(),
                ": ",
                disp_change_reason(code),
            ),
        },
    )
}

// ---------------------------------------------------------------------------
// Wide strings
// ---------------------------------------------------------------------------

/// The first of two code units that make one character.
pub open spec fn leads(unit: u16) -> bool {
    0xD800 <= unit < 0xDC00
}

/// The second of two code units that make one character.
pub open spec fn trails(unit: u16) -> bool {
    0xDC00 <= unit < 0xE000
}

/// The text that code units hold. One that leads and one that trails it make a
/// character together. Without the other, either is told with a replacement
/// character. Any other is a character by itself.
pub open spec fn text_of_units(units: Seq<u16>) -> Seq<char>
    decreases units.len(),
{
    if units.len() == 0 {
        Seq::empty()
    } else if units.len() > 1 && leads(units[0]) && trails(units[1]) {
        seq![(0x10000 + (units[0] - 0xD800) * 0x400 + (units[1] - 0xDC00)) as char]
            + text_of_units(units.skip(2))
    } else if leads(units[0]) || trails(units[0]) {
        seq!['\u{FFFD}'] + text_of_units(units.skip(1))
    } else {
        seq![units[0] as char] + text_of_units(units.skip(1))
    }
}

/// Calls `String::from_utf16_lossy`, which decodes UTF-16 and puts U+FFFD in the
/// place of each surrogate that has no partner.
#[verifier::external_body]
fn decode_units(units: &[u16]) -> (r: String)
    ensures
        r@ == text_of_units(units@),
{
    String::from_utf16_lossy(units)
}

pub open spec fn is_nul() -> spec_fn(u16) -> bool {
    |c: u16| c == 0
}

/// The code units before the first that is zero.
pub open spec fn before_nul(buf: Seq<u16>) -> Seq<u16> {
    match first_index(buf, is_nul()) {
        Some(i) => buf.take(i),
        None => buf,
    }
}

/// The code units before the first that is zero.
pub fn until_nul(buf: &[u16]) -> (r: &[u16])
    ensures
        r@ == before_nul(buf@),
{
    let mut i: usize = 0;
    while i < buf.len()
        invariant
            i <= buf.len(),
            forall|j: int| 0 <= j < i ==> !is_nul()(#[trigger] buf@[j]),
        decreases buf.len() - i,
    {
        if buf[i] == 0 {
            proof {
                assert(is_nul()(buf@[i as int]));
                lemma_first_index_here(buf@, is_nul(), i as int);
            }
            let r = slice_subrange(buf, 0, i);
            assert(r@ =~= buf@.take(i as int));
            return r;
        }
        i += 1;
    }
    proof {
        lemma_first_index_none(buf@, is_nul());
    }
    buf
}

/// The text in a buffer that ends at its first zero.
pub fn wide_to_string(buf: &[u16]) -> (r: String)
    ensures
        r@ == text_of_units(before_nul(buf@)),
{
    decode_units(until_nul(buf))
}

// ---------------------------------------------------------------------------
// What the system knows of displays
// ---------------------------------------------------------------------------

/// Where a source stands on the desktop, as the system lists it.
#[derive(Debug, Clone, Copy, PartialEq, Eq, Structural)]
pub struct SourceMode {
    /// Whether this entry describes a source at all.
    pub is_source: bool,
    pub id: u32,
    pub adapter_low: u32,
    pub adapter_high: i32,
    pub x: i32,
    pub y: i32,
    pub width: u32,
    pub height: u32,
}

/// Holds of the entry that describes a source.
pub open spec fn describes(id: u32, low: u32, high: i32) -> spec_fn(SourceMode) -> bool {
    |m: SourceMode| m.is_source && m.id == id && m.adapter_low == low && m.adapter_high == high
}

/// The place of the entry that describes a source.
pub fn find_source(modes: &[SourceMode], id: u32, low: u32, high: i32) -> (r: Option<usize>)
    ensures
        match r {
            Some(i) => i < modes@.len() && first_index(modes@, describes(id, low, high)) == Some(
                i as int,
            ) && describes(id, low, high)(modes@[i as int]),
            None => first_index(modes@, describes(id, low, high)) is None,
        },
{
    let ghost p = describes(id, low, high);
    let mut i: usize = 0;
    while i < modes.len()
        invariant
            i <= modes.len(),
            p == describes(id, low, high),
            forall|j: int| 0 <= j < i ==> !p(#[trigger] modes@[j]),
        decreases modes.len() - i,
    {
        let m = &modes[i];
        if m.is_source && m.id == id && m.adapter_low == low && m.adapter_high == high {
            proof {
                assert(p(modes@[i as int]));
                lemma_first_index_here(modes@, p, i as int);
            }
            return Some(i);
        }
        i += 1;
    }
    proof {
        lemma_first_index_none(modes@, p);
    }
    None
}

/// One monitor as the system sees it.
#[derive(Debug, PartialEq, Eq)]
pub struct RawDisplay {
    pub device_path: String,
    pub gdi_name: String,
    pub friendly_name: Option<String>,
    pub is_attached: bool,
    pub position: (i32, i32),
    pub size: (u32, u32),
    /// The graphics driver reports it as the built-in panel.
    pub is_internal: bool,
}

pub struct RawDisplayView {
    pub device_path: Seq<char>,
    pub gdi_name: Seq<char>,
    pub friendly_name: Option<Seq<char>>,
    pub is_attached: bool,
    pub position: (i32, i32),
    pub size: (u32, u32),
    pub is_internal: bool,
}

impl DeepView for RawDisplay {
    type V = RawDisplayView;

    open spec fn deep_view(&self) -> RawDisplayView {
        RawDisplayView {
            device_path: self.device_path@,
            gdi_name: self.gdi_name@,
            friendly_name: opt_text(self.friendly_name),
            is_attached: self.is_attached,
            position: self.position,
            size: self.size,
            is_internal: self.is_internal,
        }
    }
}

impl Clone for RawDisplay {
    fn clone(&self) -> (r: Self)
        ensures
            r.deep_view() == self.deep_view(),
    {
        RawDisplay {
            device_path: self.device_path.clone(),
            gdi_name: self.gdi_name.clone(),
            friendly_name: copy_opt(&self.friendly_name),
            is_attached: self.is_attached,
            position: self.position,
            size: self.size,
            is_internal: self.is_internal,
        }
    }
}

/// Whether a monitor is built in, by how the graphics driver says that it is
/// connected: internally, by an embedded DisplayPort or UDI link, or by LVDS,
/// which drives panels only.
pub open spec fn built_in(technology: i32) -> bool {
    technology == i32::MIN || technology == 6 || technology == 11 || technology == 13
}

fn is_built_in(technology: i32) -> (r: bool)
    ensures
        r == built_in(technology),
{
    technology == i32::MIN || technology == 6 || technology == 11 || technology == 13
}

impl RawDisplayView {
    /// The primary display is whichever attached source sits at the origin.
    pub open spec fn primary(self) -> bool {
        self.is_attached && self.position == (0i32, 0i32)
    }

    /// A monitor from what was found of it: one that is not driven has no
    /// position and no size, and an empty name is none.
    pub open spec fn found(
        device_path: Seq<char>,
        gdi_name: Option<Seq<char>>,
        friendly_name: Option<Seq<char>>,
        source: Option<SourceMode>,
        active: bool,
        technology: i32,
    ) -> RawDisplayView {
        RawDisplayView {
            device_path,
            gdi_name: match gdi_name {
                Some(n) => n,
                None => Seq::empty(),
            },
            friendly_name: match friendly_name {
                Some(n) if n.len() > 0 => Some(n),
                _ => None,
            },
            is_attached: active,
            position: match source {
                Some(m) if active => (m.x, m.y),
                _ => (0i32, 0i32),
            },
            size: match source {
                Some(m) if active => (m.width, m.height),
                _ => (0u32, 0u32),
            },
            is_internal: built_in(technology),
        }
    }
}

impl RawDisplay {
    /// The primary display is whichever attached source sits at the origin.
    pub fn is_primary(&self) -> (r: bool)
        ensures
            r == self.deep_view().primary(),
    {
        self.is_attached && self.position.0 == 0 && self.position.1 == 0
    }

    /// A monitor from what was found of it.
    pub fn found(
        device_path: String,
        gdi_name: Option<String>,
        friendly_name: Option<String>,
        source: Option<SourceMode>,
        active: bool,
        technology: i32,
    ) -> (r: RawDisplay)
        ensures
            r.deep_view() == RawDisplayView::found(
                device_path@,
                opt_text(gdi_name),
                opt_text(friendly_name),
                source,
                active,
                technology,
            ),
    {
        let gdi = match gdi_name {
            Some(n) => n,
            None => {
                let none = String::new();
                assert(none@ =~= Seq::<char>::empty());
                none
            },
        };
        let friendly: Option<String> = match friendly_name {
            Some(n) => {
                let cs = chars_of(n.as_str());
                if cs.len() > 0 {
                    Some(n)
                } else {
                    None
                }
            },
            None => None,
        };
        let (position, size): ((i32, i32), (u32, u32)) = match source {
            Some(m) => {
                if active {
                    ((m.x, m.y), (m.width, m.height))
                } else {
                    ((0, 0), (0, 0))
                }
            },
            None => ((0, 0), (0, 0)),
        };
        RawDisplay {
            device_path,
            gdi_name: gdi,
            friendly_name: friendly,
            is_attached: active,
            position,
            size,
            is_internal: is_built_in(technology),
        }
    }
}

/// Whether a monitor with this path is listed.
pub open spec fn has_path(listed: Seq<RawDisplayView>, path: Seq<char>) -> bool {
    exists|i: int| 0 <= i < listed.len() && (#[trigger] listed[i]).device_path == path
}

/// A list with more monitors behind it: each that has a path and is not listed
/// yet.
pub open spec fn listed_with(listed: Seq<RawDisplayView>, more: Seq<RawDisplayView>) -> Seq<
    RawDisplayView,
>
    decreases more.len(),
{
    if more.len() == 0 {
        listed
    } else {
        let front = listed_with(listed, more.drop_last());
        let d = more.last();
        if d.device_path.len() == 0 || has_path(front, d.device_path) {
            front
        } else {
            front.push(d)
        }
    }
}

/// Every monitor the system knows about: those that are part of the desktop
/// first, then those that the hardware knows about but that are not driven.
pub open spec fn all_monitors(active: Seq<RawDisplayView>, known: Seq<RawDisplayView>) -> Seq<
    RawDisplayView,
> {
    listed_with(listed_with(Seq::empty(), active), known)
}

fn is_listed(listed: &Vec<RawDisplay>, path: &str) -> (r: bool)
    ensures
        r == has_path(listed.deep_view(), path@),
{
    let ghost all = listed.deep_view();
    let mut i: usize = 0;
    while i < listed.len()
        invariant
            i <= listed.len(),
            all == listed.deep_view(),
            forall|j: int| 0 <= j < i ==> (#[trigger] all[j]).device_path != path@,
        decreases listed.len() - i,
    {
        if same(listed[i].device_path.as_str(), path) {
            assert(all[i as int].device_path == path@);
            return true;
        }
        i += 1;
    }
    false
}

fn list_more(listed: &mut Vec<RawDisplay>, more: &Vec<RawDisplay>)
    ensures
        final(listed).deep_view() == listed_with(old(listed).deep_view(), more.deep_view()),
{
    let ghost start = listed.deep_view();
    let ghost ms = more.deep_view();
    let mut i: usize = 0;
    assert(ms.take(0) =~= Seq::<RawDisplayView>::empty());
    while i < more.len()
        invariant
            i <= more.len(),
            ms == more.deep_view(),
            listed.deep_view() == listed_with(start, ms.take(i as int)),
        decreases more.len() - i,
    {
        proof {
            let next = ms.take(i as int + 1);
            assert(next.drop_last() =~= ms.take(i as int));
            assert(next.last() == ms[i as int]);
        }
        let path = chars_of(more[i].device_path.as_str());
        if path.len() > 0 && !is_listed(listed, more[i].device_path.as_str()) {
            let ghost before = listed.deep_view();
            listed.push(more[i].clone());
            assert(listed.deep_view() =~= before.push(ms[i as int]));
        }
        i += 1;
    }
    assert(ms.take(ms.len() as int) =~= ms);
}

/// Enumerate every monitor the system knows about, attached or not.
///
/// Identity has to come from the same interface that performs a change, or the
/// two can disagree exactly when it matters. And which monitors are on the
/// desktop has to come from asking for those alone: a monitor appears in many
/// candidate paths otherwise, and one of them being marked active does not mean
/// that the monitor is in use.
pub fn enumerate(active: &Vec<RawDisplay>, known: &Vec<RawDisplay>) -> (r: Vec<RawDisplay>)
    ensures
        r.deep_view() == all_monitors(active.deep_view(), known.deep_view()),
{
    let mut out: Vec<RawDisplay> = Vec::new();
    assert(out.deep_view() =~= Seq::<RawDisplayView>::empty());
    list_more(&mut out, active);
    list_more(&mut out, known);
    out
}

// ---------------------------------------------------------------------------
// Displays of the desktop
// ---------------------------------------------------------------------------

/// Whether a display is one that must never be detached.
pub open spec fn protected_by(protected: Seq<Seq<char>>, display: DesktopDisplayView) -> bool {
    exists|i: int| 0 <= i < protected.len() && display.matches_id(#[trigger] protected[i])
}

/// A monitor as the desktop sees it. It is taken for the built-in panel where
/// the graphics driver says so, and where it is protected.
pub open spec fn display_of(raw: RawDisplayView, protected: Seq<Seq<char>>) -> DesktopDisplayView {
    let d = DesktopDisplayView {
        gdi_name: raw.gdi_name,
        device_path: raw.device_path,
        friendly_name: raw.friendly_name,
        rect: Rect {
            left: raw.position.0,
            top: raw.position.1,
            right: (raw.position.0 + raw.size.0) as i32,
            bottom: (raw.position.1 + raw.size.1) as i32,
        },
        is_primary: raw.primary(),
        is_attached: raw.is_attached,
        is_internal: false,
    };
    DesktopDisplayView { is_internal: raw.is_internal || protected_by(protected, d), ..d }
}

/// A monitor's far corner can be told as numbers.
pub open spec fn on_the_map(raw: RawDisplayView) -> bool {
    &&& raw.position.0 + raw.size.0 <= i32::MAX
    &&& raw.position.1 + raw.size.1 <= i32::MAX
    &&& raw.size.0 <= i32::MAX
    &&& raw.size.1 <= i32::MAX
}

/// Whether a display is one that must never be detached.
pub fn is_protected(protected: &Vec<String>, display: &DesktopDisplay) -> (r: bool)
    ensures
        r == protected_by(texts(protected@), display.deep_view()),
{
    let ghost ps = texts(protected@);
    let mut i: usize = 0;
    while i < protected.len()
        invariant
            i <= protected.len(),
            ps == texts(protected@),
            forall|j: int|
                0 <= j < i ==> !display.deep_view().matches_id(#[trigger] ps[j]),
        decreases protected.len() - i,
    {
        if display.matches_backend_id(protected[i].as_str()) {
            assert(display.deep_view().matches_id(ps[i as int]));
            return true;
        }
        i += 1;
    }
    false
}

/// A monitor as the desktop sees it.
pub fn to_display(raw: &RawDisplay, protected: &Vec<String>) -> (r: DesktopDisplay)
    requires
        on_the_map(raw.deep_view()),
    ensures
        r.deep_view() == display_of(raw.deep_view(), texts(protected@)),
{
    let mut display = DesktopDisplay {
        gdi_name: raw.gdi_name.clone(),
        device_path: raw.device_path.clone(),
        friendly_name: copy_opt(&raw.friendly_name),
        rect: Rect {
            left: raw.position.0,
            top: raw.position.1,
            right: raw.position.0 + raw.size.0 as i32,
            bottom: raw.position.1 + raw.size.1 as i32,
        },
        is_primary: raw.is_primary(),
        is_attached: raw.is_attached,
        is_internal: false,
    };
    let internal = raw.is_internal || is_protected(protected, &display);
    display.is_internal = internal;
    display
}

// ---------------------------------------------------------------------------
// Attaching and detaching
// ---------------------------------------------------------------------------

/// Whether two device paths name the same display: one begins with the other.
pub open spec fn same_path(candidate: Seq<char>, wanted: Seq<char>) -> bool {
    either_begins(upper_all(trimmed(candidate)), upper_all(trimmed(wanted)))
}

fn capitals(s: &str) -> (r: String)
    ensures
        r@ == upper_all(trimmed(s@)),
{
    let cs = chars_of(s);
    let upper = uppered(trim(cs.as_slice()));
    string_of(upper.as_slice())
}

/// Whether two device paths name the same display.
pub fn same_display(candidate: &str, wanted: &str) -> (r: bool)
    ensures
        r == same_path(candidate@, wanted@),
{
    let a = capitals(candidate);
    let b = capitals(wanted);
    begins_either(a.as_str(), b.as_str())
}

/// A way in which the system could drive a monitor.
#[derive(Debug, PartialEq, Eq)]
pub struct PathFacts {
    pub active: bool,
    /// The monitor's device path, where the system tells it.
    pub device_path: Option<String>,
}

pub struct PathFactsView {
    pub active: bool,
    pub device_path: Option<Seq<char>>,
}

impl DeepView for PathFacts {
    type V = PathFactsView;

    open spec fn deep_view(&self) -> PathFactsView {
        PathFactsView { active: self.active, device_path: opt_text(self.device_path) }
    }
}

/// Holds of the paths to a monitor that can be changed: to make one active it
/// has to be inactive now, and the other way round.
pub open spec fn changes(device_path: Seq<char>, make_active: bool) -> spec_fn(PathFactsView) -> bool {
    |p: PathFactsView|
        p.active == !make_active && (p.device_path matches Some(dp) && same_path(dp, device_path))
}

/// Holds of the paths to a monitor.
pub open spec fn leads_to(device_path: Seq<char>) -> spec_fn(PathFactsView) -> bool {
    |p: PathFactsView| p.device_path matches Some(dp) && same_path(dp, device_path)
}

pub open spec fn place_result(r: Result<usize, DesktopError>) -> Result<int, DesktopErrorView> {
    match r {
        Ok(i) => Ok(i as int),
        Err(e) => Err(e.deep_view()),
    }
}

/// The place of a path, or that the display is not there.
pub open spec fn place_or_missing(place: Option<int>, device_path: Seq<char>) -> Result<
    int,
    DesktopErrorView,
> {
    match place {
        Some(i) => Ok(i),
        None => Err(DesktopErrorView::DisplayNotFound(device_path)),
    }
}

fn is_led_to(p: &PathFacts, device_path: &str) -> (r: bool)
    ensures
        r == leads_to(device_path@)(p.deep_view()),
{
    match &p.device_path {
        Some(dp) => same_display(dp.as_str(), device_path),
        None => false,
    }
}

/// Which path to change in order to attach or detach one monitor, addressed by
/// its device path.
pub fn path_to_change(paths: &[PathFacts], device_path: &str, make_active: bool) -> (r: Result<
    usize,
    DesktopError,
>)
    ensures
        place_result(r) == place_or_missing(
            first_index(paths.deep_view(), changes(device_path@, make_active)),
            device_path@,
        ),
        r matches Ok(i) ==> i < paths@.len(),
{
    let ghost ps = paths.deep_view();
    let ghost p = changes(device_path@, make_active);
    let mut i: usize = 0;
    while i < paths.len()
        invariant
            i <= paths.len(),
            ps == paths.deep_view(),
            p == changes(device_path@, make_active),
            forall|j: int| 0 <= j < i ==> !p(#[trigger] ps[j]),
        decreases paths.len() - i,
    {
        if paths[i].active == !make_active && is_led_to(&paths[i], device_path) {
            proof {
                assert(p(ps[i as int]));
                lemma_first_index_here(ps, p, i as int);
            }
            return Ok(i);
        }
        assert(!p(ps[i as int]));
        i += 1;
    }
    proof {
        lemma_first_index_none(ps, p);
    }
    Err(DesktopError::DisplayNotFound(device_path.to_owned()))
}

/// What a change of one monitor is called.
pub fn change_operation(device_path: &str, make_active: bool) -> (r: String)
    ensures
        r@ == (if make_active {
            "attaching "@
        } else {
            "detaching "@
        }) + device_path@,
{
    if make_active {
        cat2("attaching ", device_path)
    } else {
        cat2("detaching ", device_path)
    }
}

/// Which path leads to a monitor.
pub fn path_to(paths: &[PathFacts], device_path: &str) -> (r: Result<usize, DesktopError>)
    ensures
        place_result(r) == place_or_missing(
            first_index(paths.deep_view(), leads_to(device_path@)),
            device_path@,
        ),
        r matches Ok(i) ==> i < paths@.len(),
{
    let ghost ps = paths.deep_view();
    let ghost p = leads_to(device_path@);
    let mut i: usize = 0;
    while i < paths.len()
        invariant
            i <= paths.len(),
            ps == paths.deep_view(),
            p == leads_to(device_path@),
            forall|j: int| 0 <= j < i ==> !p(#[trigger] ps[j]),
        decreases paths.len() - i,
    {
        if is_led_to(&paths[i], device_path) {
            proof {
                assert(p(ps[i as int]));
                lemma_first_index_here(ps, p, i as int);
            }
            return Ok(i);
        }
        assert(!p(ps[i as int]));
        i += 1;
    }
    proof {
        lemma_first_index_none(ps, p);
    }
    Err(DesktopError::DisplayNotFound(device_path.to_owned()))
}

/// What may be done with a display that is to become primary: nothing if it is
/// already, a change if it can be, a refusal otherwise.
pub open spec fn primary_decision_view(d: DesktopDisplayView) -> Result<bool, DesktopErrorView> {
    if d.is_primary {
        Ok(false)
    } else if !d.is_attached {
        Err(
            DesktopErrorView::RefusedUnsafe {
                display: d.gdi_name,
                reason: "it is not attached, so it cannot be made primary"@,
            },
        )
    } else if d.device_path.len() == 0 {
        Err(DesktopErrorView::DisplayNotFound(d.gdi_name))
    } else {
        Ok(true)
    }
}

pub open spec fn flag_result(r: Result<bool, DesktopError>) -> Result<bool, DesktopErrorView> {
    match r {
        Ok(b) => Ok(b),
        Err(e) => Err(e.deep_view()),
    }
}

/// Whether a display has to be changed in order to be primary.
pub fn primary_decision(d: &DesktopDisplay) -> (r: Result<bool, DesktopError>)
    ensures
        flag_result(r) == primary_decision_view(d.deep_view()),
{
    if d.is_primary {
        return Ok(false);
    }
    if !d.is_attached {
        return Err(
            DesktopError::RefusedUnsafe {
                display: d.gdi_name.clone(),
                reason: "it is not attached, so it cannot be made primary".to_owned(),
            },
        );
    }
    match address_of(d) {
        Ok(_) => Ok(true),
        Err(e) => Err(e),
    }
}

/// The path by which a display is addressed to the system.
pub fn address_of(d: &DesktopDisplay) -> (r: Result<&str, DesktopError>)
    ensures
        match r {
            Ok(path) => path@ == d.device_path@ && path@.len() > 0,
            Err(e) => d.device_path@.len() == 0 && e.deep_view()
                == DesktopErrorView::DisplayNotFound(d.gdi_name@),
        },
{
    let path = chars_of(d.device_path.as_str());
    if path.len() == 0 {
        Err(DesktopError::DisplayNotFound(d.gdi_name.clone()))
    } else {
        Ok(d.device_path.as_str())
    }
}

/// How a display is refused that is protected.
pub open spec fn protection(
    protected: Seq<Seq<char>>,
    d: DesktopDisplayView,
) -> Option<DesktopErrorView> {
    if protected_by(protected, d) {
        Some(
            DesktopErrorView::RefusedUnsafe {
                display: d.gdi_name,
                reason: "it is marked as a protected recovery display"@,
            },
        )
    } else {
        None
    }
}

/// Why a display is not detached, if it is not.
pub open spec fn detach_refusal(
    protected: Seq<Seq<char>>,
    displays: Seq<DesktopDisplayView>,
    d: DesktopDisplayView,
) -> Option<DesktopErrorView> {
    match protection(protected, d) {
        Some(refusal) => Some(refusal),
        None => match detach_problem(displays, d) {
            Some(reason) => Some(DesktopErrorView::RefusedUnsafe { display: d.gdi_name, reason }),
            None => None,
        },
    }
}

/// Refuses a display that is protected, before anything else is looked at.
pub fn refuse_protected(protected: &Vec<String>, d: &DesktopDisplay) -> (r: Result<
    (),
    DesktopError,
>)
    ensures
        unit_problem(r) == protection(texts(protected@), d.deep_view()),
{
    if is_protected(protected, d) {
        return Err(
            DesktopError::RefusedUnsafe {
                display: d.gdi_name.clone(),
                reason: "it is marked as a protected recovery display".to_owned(),
            },
        );
    }
    Ok(())
}

/// Whether a display may be detached.
pub fn may_detach(protected: &Vec<String>, displays: &[DesktopDisplay], d: &DesktopDisplay) -> (r:
    Result<(), DesktopError>)
    ensures
        unit_problem(r) == detach_refusal(
            texts(protected@),
            displays.deep_view(),
            d.deep_view(),
        ),
{
    match refuse_protected(protected, d) {
        Ok(_) => {},
        Err(e) => {
            return Err(e);
        },
    }
    match detach_is_safe(displays, d) {
        Ok(_) => Ok(()),
        Err(reason) => Err(
            DesktopError::RefusedUnsafe { display: d.gdi_name.clone(), reason },
        ),
    }
}

/// Whether a saved mode says enough to be put back.
pub fn has_mode(saved: &SavedDisplayMode) -> (r: bool)
    ensures
        r == (saved.width != 0 && saved.height != 0),
{
    saved.width != 0 && saved.height != 0
}

/// What is said of a display that is attached again, but not where it was.
pub open spec fn misplaced(d: DesktopDisplayView, saved: SavedDisplayMode, e: DesktopErrorView) -> Seq<
    char,
> {
    "warning: `"@ + d.gdi_name + "` is attached again but could not be put back at "@ + (decimal(
        saved.width as nat,
    ) + "x"@ + decimal(saved.height as nat) + " ("@) + (signed_decimal(saved.pos_x as int) + ", "@
        + signed_decimal(saved.pos_y as int) + "): "@) + e.message()
}

/// What is said of a display that is attached again, but not where it was.
pub fn misplaced_warning(d: &DesktopDisplay, saved: &SavedDisplayMode, e: &DesktopError) -> (r:
    String)
    ensures
        r@ == misplaced(d.deep_view(), *saved, e.deep_view()),
{
    let size = cat4(
        dec(saved.width as u64).as_str(),
        "x",
        dec(saved.height as u64).as_str(),
        " (",
    );
    let position = cat4(
        signed_dec(saved.pos_x).as_str(),
        ", ",
        signed_dec(saved.pos_y).as_str(),
        "): ",
    );
    cat6(
        "warning: `",
        d.gdi_name.as_str(),
        "` is attached again but could not be put back at ",
        size.as_str(),
        position.as_str(),
        e.to_string().as_str(),
    )
}

// ---------------------------------------------------------------------------
// Making a display primary
// ---------------------------------------------------------------------------

/// How far everything has to move for a source to come to the origin. `None`
/// if it is there already.
pub open spec fn shift_to_origin(m: SourceMode) -> Option<(int, int)> {
    if m.x == 0 && m.y == 0 {
        None
    } else {
        Some((-m.x, -m.y))
    }
}

/// A source moved by so much; anything else stays.
pub open spec fn moved(m: SourceMode, dx: int, dy: int) -> SourceMode {
    if m.is_source {
        SourceMode { x: (m.x + dx) as i32, y: (m.y + dy) as i32, ..m }
    } else {
        m
    }
}

/// Every source can be moved by so much.
pub open spec fn can_move(modes: Seq<SourceMode>, dx: int, dy: int) -> bool {
    forall|i: int|
        0 <= i < modes.len() && (#[trigger] modes[i]).is_source ==> i32::MIN <= modes[i].x + dx
            <= i32::MAX && i32::MIN <= modes[i].y + dy <= i32::MAX
}

/// Makes the source at `at` the primary one: the primary is whichever source
/// sits at the origin, so every source is shifted by the same distance.
/// Returns whether anything changed.
pub fn make_primary(modes: &mut Vec<SourceMode>, at: usize) -> (r: bool)
    requires
        at < old(modes)@.len(),
        shift_to_origin(old(modes)@[at as int]) matches Some((dx, dy)) ==> can_move(
            old(modes)@,
            dx,
            dy,
        ),
    ensures
        match shift_to_origin(old(modes)@[at as int]) {
            None => !r && final(modes)@ == old(modes)@,
            Some((dx, dy)) => r && final(modes)@ == old(modes)@.map_values(
                |m: SourceMode| moved(m, dx, dy),
            ),
        },
{
    let dx: i64 = -(modes[at].x as i64);
    let dy: i64 = -(modes[at].y as i64);
    if dx == 0 && dy == 0 {
        return false;
    }
    let ghost before = modes@;
    let ghost want = before.map_values(|m: SourceMode| moved(m, dx as int, dy as int));
    let mut i: usize = 0;
    while i < modes.len()
        invariant
            i <= modes@.len(),
            modes@.len() == before.len(),
            -0x8000_0000 <= dx <= 0x8000_0000,
            -0x8000_0000 <= dy <= 0x8000_0000,
            want == before.map_values(|m: SourceMode| moved(m, dx as int, dy as int)),
            can_move(before, dx as int, dy as int),
            forall|k: int| 0 <= k < i ==> modes@[k] == #[trigger] want[k],
            forall|k: int| i <= k < before.len() ==> #[trigger] modes@[k] == before[k],
        decreases modes@.len() - i,
    {
        let m = modes[i];
        if m.is_source {
            assert(before[i as int].is_source);
            let x: i32 = (m.x as i64 + dx) as i32;
            let y: i32 = (m.y as i64 + dy) as i32;
            modes.set(
                i,
                SourceMode {
                    is_source: m.is_source,
                    id: m.id,
                    adapter_low: m.adapter_low,
                    adapter_high: m.adapter_high,
                    x,
                    y,
                    width: m.width,
                    height: m.height,
                },
            );
        }
        assert(modes@[i as int] == want[i as int]);
        i += 1;
    }
    assert(modes@ =~= want);
    true
}

/// The error of a display that is driven but stands nowhere.
pub fn no_source_mode(device_path: &str) -> (r: DesktopError)
    ensures
        r.deep_view() == (DesktopErrorView::OsCall {
            operation: "locating the source mode for "@ + device_path@,
            detail: "the display is active but has no source mode"@,
        }),
{
    DesktopError::OsCall {
        operation: cat2("locating the source mode for ", device_path),
        detail: "the display is active but has no source mode".to_owned(),
    }
}

// ---------------------------------------------------------------------------
// Sweeping windows
// ---------------------------------------------------------------------------

/// What is known of a window before it is moved.
#[derive(Debug, PartialEq, Eq)]
pub struct WindowFacts {
    pub visible: bool,
    /// A palette or overlay rather than something a user switches to.
    pub tool: bool,
    pub title: String,
    /// Where it is, where the system tells it.
    pub bounds: Option<Rect>,
}

/// Whether a window is to be swept off a display: it is visible, is no tool
/// window, has a title, and its middle is on the display.
pub open spec fn to_be_swept(
    visible: bool,
    tool: bool,
    title: Seq<char>,
    bounds: Option<Rect>,
    source: Rect,
) -> bool {
    visible && !tool && title.len() > 0 && (bounds matches Some(r) && source.holds(
        r.middle().0,
        r.middle().1,
    ))
}

/// Whether a window is to be swept off a display.
pub fn is_swept(w: &WindowFacts, source: &Rect) -> (r: bool)
    requires
        w.bounds matches Some(b) ==> b.fits(),
    ensures
        r == to_be_swept(w.visible, w.tool, w.title@, w.bounds, *source),
{
    if !w.visible || w.tool {
        return false;
    }
    let title = chars_of(w.title.as_str());
    if title.len() == 0 {
        return false;
    }
    match &w.bounds {
        Some(b) => {
            let (x, y) = b.center();
            source.contains(x, y)
        },
        None => false,
    }
}

pub open spec fn at_least_zero(n: int) -> int {
    if n > 0 {
        n
    } else {
        0
    }
}

pub open spec fn lesser(a: int, b: int) -> int {
    if a < b {
        a
    } else {
        b
    }
}

/// A number as 32 bits hold it: one that is too large or too small is the
/// nearest that fits.
pub open spec fn saturated(n: int) -> int {
    if n > i32::MAX {
        i32::MAX as int
    } else if n < i32::MIN {
        i32::MIN as int
    } else {
        n
    }
}

/// Where one side of a window goes: it keeps its distance from the side of the
/// display as far as it then still fits on the other one.
pub open spec fn placed(
    window_from: int,
    window_to: int,
    source_from: int,
    target_from: int,
    target_to: int,
) -> int {
    let offset = at_least_zero(window_from - source_from);
    let room = at_least_zero((target_to - target_from) - (window_to - window_from));
    saturated(target_from + lesser(offset, room))
}

fn place(
    window_from: i32,
    window_to: i32,
    source_from: i32,
    target_from: i32,
    target_to: i32,
) -> (r: i32)
    ensures
        r == placed(
            window_from as int,
            window_to as int,
            source_from as int,
            target_from as int,
            target_to as int,
        ),
{
    let mut offset: i64 = window_from as i64 - source_from as i64;
    if offset < 0 {
        offset = 0;
    }
    let mut room: i64 = (target_to as i64 - target_from as i64) - (window_to as i64
        - window_from as i64);
    if room < 0 {
        room = 0;
    }
    let shift: i64 = if offset < room {
        offset
    } else {
        room
    };
    let at: i64 = target_from as i64 + shift;
    if at > i32::MAX as i64 {
        i32::MAX
    } else {
        at as i32
    }
}

/// Where a window goes on another display. Its offset is kept where it fits,
/// so that a sweep does not stack everything in one corner.
pub fn swept_position(window: &Rect, source: &Rect, target: &Rect) -> (r: (i32, i32))
    ensures
        r.0 == placed(
            window.left as int,
            window.right as int,
            source.left as int,
            target.left as int,
            target.right as int,
        ),
        r.1 == placed(
            window.top as int,
            window.bottom as int,
            source.top as int,
            target.top as int,
            target.bottom as int,
        ),
{
    (
        place(window.left, window.right, source.left, target.left, target.right),
        place(window.top, window.bottom, source.top, target.top, target.bottom),
    )
}

/// Whether a window left a display. A successful request does not mean that it
/// moved: windows of an elevated process, and some that manage their own
/// placement, silently stay put. So its position afterwards is believed.
pub fn has_landed(requested: bool, after: &Option<Rect>, source: &Rect) -> (r: bool)
    requires
        after matches Some(b) ==> b.fits(),
    ensures
        r == (requested && (after matches Some(b) && !source.holds(b.middle().0, b.middle().1))),
{
    if !requested {
        return false;
    }
    match after {
        Some(b) => {
            let (x, y) = b.center();
            !source.contains(x, y)
        },
        None => false,
    }
}

/// A report with one more window: moved if it landed, left alone if not.
pub fn report_swept(
    report: &mut SweepReport,
    title: String,
    from: Rect,
    was_maximized: bool,
    landed: bool,
)
    ensures
        final(report).deep_view() == (if landed {
            SweepReportView {
                moved: old(report).deep_view().moved.push(
                    MovedWindowView { title: title@, from, was_maximized },
                ),
                ..old(report).deep_view()
            }
        } else {
            SweepReportView {
                skipped: old(report).deep_view().skipped.push(title@),
                ..old(report).deep_view()
            }
        }),
{
    let ghost before = report.deep_view();
    let ghost t = title@;
    if landed {
        report.moved.push(MovedWindow { title, from, was_maximized });
        assert(report.deep_view().moved =~= before.moved.push(
            MovedWindowView { title: t, from, was_maximized },
        ));
    } else {
        report.skipped.push(title);
        assert(report.deep_view().skipped =~= before.skipped.push(t));
    }
}

/// Refusal of a sweep that has nowhere to go.
pub fn nowhere_to_sweep(display: &DesktopDisplay) -> (r: DesktopError)
    ensures
        r.deep_view() == (DesktopErrorView::RefusedUnsafe {
            display: display.gdi_name@,
            reason: "there is no other attached display to move windows onto"@,
        }),
{
    DesktopError::RefusedUnsafe {
        display: display.gdi_name.clone(),
        reason: "there is no other attached display to move windows onto".to_owned(),
    }
}

// ---------------------------------------------------------------------------
// Putting windows back
// ---------------------------------------------------------------------------

/// Holds of a remembered window with a title that has not been put back yet.
pub open spec fn still_wanted(title: Seq<char>, done: Seq<Seq<char>>) -> spec_fn(MovedWindowView) -> bool {
    |w: MovedWindowView| w.title == title && !done.contains(w.title)
}

fn is_done(done: &Vec<String>, title: &str) -> (r: bool)
    ensures
        r == texts(done@).contains(title@),
{
    let ghost ds = texts(done@);
    let mut i: usize = 0;
    while i < done.len()
        invariant
            i <= done.len(),
            ds == texts(done@),
            forall|j: int| 0 <= j < i ==> #[trigger] ds[j] != title@,
        decreases done.len() - i,
    {
        if same(done[i].as_str(), title) {
            assert(ds[i as int] == title@);
            return true;
        }
        i += 1;
    }
    false
}

/// Which remembered window a visible one is, by its title.
pub fn wanted_window(wanted: &[MovedWindow], done: &Vec<String>, title: &str) -> (r: Option<usize>)
    ensures
        match r {
            Some(i) => i < wanted@.len() && first_index(
                wanted.deep_view(),
                still_wanted(title@, texts(done@)),
            ) == Some(i as int),
            None => first_index(wanted.deep_view(), still_wanted(title@, texts(done@))) is None,
        },
{
    let ghost ws = wanted.deep_view();
    let ghost p = still_wanted(title@, texts(done@));
    let mut i: usize = 0;
    while i < wanted.len()
        invariant
            i <= wanted.len(),
            ws == wanted.deep_view(),
            p == still_wanted(title@, texts(done@)),
            forall|j: int| 0 <= j < i ==> !p(#[trigger] ws[j]),
        decreases wanted.len() - i,
    {
        if same(wanted[i].title.as_str(), title) && !is_done(done, title) {
            proof {
                assert(p(ws[i as int]));
                lemma_first_index_here(ws, p, i as int);
            }
            return Some(i);
        }
        assert(!p(ws[i as int]));
        i += 1;
    }
    proof {
        lemma_first_index_none(ws, p);
    }
    None
}

/// Holds of the windows that were not put back.
pub open spec fn not_done(done: Seq<Seq<char>>) -> spec_fn(MovedWindowView) -> bool {
    |w: MovedWindowView| !done.contains(w.title)
}

/// The titles of the windows that were not put back.
pub open spec fn missing_titles(windows: Seq<MovedWindowView>, done: Seq<Seq<char>>) -> Seq<
    Seq<char>,
> {
    windows.filter(not_done(done)).map_values(|w: MovedWindowView| w.title)
}

/// The titles of the windows that were not put back.
pub fn missing_windows(windows: &[MovedWindow], done: &Vec<String>) -> (r: Vec<String>)
    ensures
        texts(r@) == missing_titles(windows.deep_view(), texts(done@)),
{
    let ghost ws = windows.deep_view();
    let ghost p = not_done(texts(done@));
    let ghost f = |w: MovedWindowView| w.title;
    let mut out: Vec<String> = Vec::new();
    let mut i: usize = 0;
    proof {
        lemma_filter_take_none(ws, p);
        assert(texts(out@) =~= ws.take(0).filter(p).map_values(f));
    }
    while i < windows.len()
        invariant
            i <= windows.len(),
            ws == windows.deep_view(),
            p == not_done(texts(done@)),
            f == (|w: MovedWindowView| w.title),
            texts(out@) == ws.take(i as int).filter(p).map_values(f),
        decreases windows.len() - i,
    {
        proof {
            lemma_filter_take(ws, p, i as int);
        }
        if !is_done(done, windows[i].title.as_str()) {
            let ghost before = out@;
            let ghost kept = ws.take(i as int).filter(p);
            out.push(windows[i].title.clone());
            proof {
                assert(p(ws[i as int]));
                assert(texts(out@) =~= texts(before).push(ws[i as int].title));
                assert(kept.push(ws[i as int]).map_values(f) =~= kept.map_values(f).push(
                    ws[i as int].title,
                ));
            }
        } else {
            assert(!p(ws[i as int]));
        }
        i += 1;
    }
    proof {
        lemma_filter_take_none(ws, p);
    }
    out
}

// ---------------------------------------------------------------------------
// What arranging promises
// ---------------------------------------------------------------------------

/// A window that fits on the other display ends up on it whole.
pub proof fn law_a_window_that_fits_lands_inside(
    window_from: int,
    window_to: int,
    source_from: int,
    target_from: int,
    target_to: int,
)
    requires
        i32::MIN <= target_from <= target_to <= i32::MAX,
        0 <= window_to - window_from <= target_to - target_from,
    ensures
        ({
            let at = placed(window_from, window_to, source_from, target_from, target_to);
            target_from <= at && at + (window_to - window_from) <= target_to
        }),
{
}

/// A window that has room keeps its distance from the side of the display.
pub proof fn law_a_window_keeps_its_offset(
    window_from: int,
    window_to: int,
    source_from: int,
    target_from: int,
    target_to: int,
)
    requires
        i32::MIN <= target_from <= target_to <= i32::MAX,
        window_from <= window_to,
        0 <= window_from - source_from,
        (window_from - source_from) + (window_to - window_from) <= target_to - target_from,
    ensures
        placed(window_from, window_to, source_from, target_from, target_to) - target_from
            == window_from - source_from,
{
}

/// Making a display primary brings it to the origin and moves nothing relative
/// to anything else.
pub proof fn law_promotion_keeps_the_arrangement(modes: Seq<SourceMode>, at: int, i: int, j: int)
    requires
        0 <= at < modes.len(),
        0 <= i < modes.len(),
        0 <= j < modes.len(),
        modes[at].is_source && modes[i].is_source && modes[j].is_source,
        shift_to_origin(modes[at]) matches Some((dx, dy)) && can_move(modes, dx, dy),
    ensures
        ({
            let (dx, dy) = shift_to_origin(modes[at])->0;
            let after = modes.map_values(|m: SourceMode| moved(m, dx, dy));
            &&& after[at].x == 0 && after[at].y == 0
            &&& after[i].x - after[j].x == modes[i].x - modes[j].x
            &&& after[i].y - after[j].y == modes[i].y - modes[j].y
        }),
{
}

/// A protected display is never detached.
pub proof fn law_protected_displays_stay(
    protected: Seq<Seq<char>>,
    displays: Seq<DesktopDisplayView>,
    d: DesktopDisplayView,
)
    requires
        detach_refusal(protected, displays, d) is None,
    ensures
        !protected_by(protected, d),
        detach_problem(displays, d) is None,
{
}

/// A monitor is listed once, and those of the desktop come first, as such.
pub proof fn law_monitors_are_listed_once(
    active: Seq<RawDisplayView>,
    known: Seq<RawDisplayView>,
    i: int,
    j: int,
)
    requires
        0 <= i < j < all_monitors(active, known).len(),
    ensures
        all_monitors(active, known)[i].device_path != all_monitors(active, known)[j].device_path,
{
    lemma_listed_once(Seq::empty(), active);
    lemma_listed_once(listed_with(Seq::empty(), active), known);
}

pub open spec fn all_distinct(listed: Seq<RawDisplayView>) -> bool {
    forall|i: int, j: int|
        0 <= i < j < listed.len() ==> (#[trigger] listed[i]).device_path != (
        #[trigger] listed[j]).device_path
}

proof fn lemma_listed_once(listed: Seq<RawDisplayView>, more: Seq<RawDisplayView>)
    requires
        all_distinct(listed),
    ensures
        all_distinct(listed_with(listed, more)),
    decreases more.len(),
{
    if more.len() > 0 {
        lemma_listed_once(listed, more.drop_last());
        let front = listed_with(listed, more.drop_last());
        let d = more.last();
        if d.device_path.len() > 0 && !has_path(front, d.device_path) {
            let all = front.push(d);
            assert forall|i: int, j: int| 0 <= i < j < all.len() implies (
            #[trigger] all[i]).device_path != (#[trigger] all[j]).device_path by {
                if j == front.len() {
                    assert(all[i] == front[i]);
                }
            }
        }
    }
}

/// A window is swept off a display exactly where a person can switch to it and
/// its middle is on the display, however far it reaches beyond it.
pub proof fn law_a_window_is_swept_by_its_middle(
    visible: bool,
    tool: bool,
    title: Seq<char>,
    window: Rect,
    source: Rect,
)
    requires
        window.left <= window.right,
        window.top <= window.bottom,
    ensures
        to_be_swept(visible, tool, title, Some(window), source) <==> {
            let x = window.left + (window.right - window.left) / 2;
            let y = window.top + (window.bottom - window.top) / 2;
            &&& visible
            &&& !tool
            &&& title.len() > 0
            &&& source.left <= x < source.right
            &&& source.top <= y < source.bottom
        },
        !to_be_swept(visible, tool, title, None, source),
{
}

/// A window that reaches beyond a display by as much on either side is swept
/// off it, as is one that is on it whole; one that is beside it stays.
pub proof fn law_a_window_over_a_display_is_swept(title: Seq<char>, window: Rect, source: Rect)
    requires
        title.len() > 0,
        source.left < source.right,
        source.top < source.bottom,
        window.left < window.right,
        window.top < window.bottom,
    ensures
        source.left - window.left == window.right - source.right && source.top - window.top
            == window.bottom - source.bottom ==> to_be_swept(
            true,
            false,
            title,
            Some(window),
            source,
        ),
        source.left <= window.left && window.right <= source.right && source.top <= window.top
            && window.bottom <= source.bottom ==> to_be_swept(
            true,
            false,
            title,
            Some(window),
            source,
        ),
        window.right <= source.left || source.right <= window.left || window.bottom <= source.top
            || source.bottom <= window.top ==> !to_be_swept(
            true,
            false,
            title,
            Some(window),
            source,
        ),
{
}

// ---------------------------------------------------------------------------
// Laws of what the system reports
// ---------------------------------------------------------------------------

/// A character in UTF-16: one unit, or two where it does not fit into one.
pub open spec fn units_of(c: char) -> Seq<u16> {
    if (c as int) < 0x10000 {
        seq![(c as int) as u16]
    } else {
        seq![
            (0xD800 + (c as int - 0x10000) / 0x400) as u16,
            (0xDC00 + (c as int - 0x10000) % 0x400) as u16,
        ]
    }
}

pub open spec fn all_units(s: Seq<char>) -> Seq<u16>
    decreases s.len(),
{
    if s.len() == 0 {
        Seq::empty()
    } else {
        units_of(s[0]) + all_units(s.skip(1))
    }
}

proof fn lemma_units(c: char)
    ensures
        (c as int) < 0x10000 ==> {
            let u = units_of(c)[0];
            units_of(c).len() == 1 && !leads(u) && !trails(u) && u as char == c
        },
        (c as int) >= 0x10000 ==> {
            let u = units_of(c);
            &&& u.len() == 2
            &&& leads(u[0])
            &&& trails(u[1])
            &&& (0x10000 + (u[0] - 0xD800) * 0x400 + (u[1] - 0xDC00)) as char == c
        },
{
    let v = c as int;
    assert(0 <= v <= 0x10FFFF && !(0xD800 <= v < 0xE000));
    if v >= 0x10000 {
        let w = v - 0x10000;
        assert(0 <= w / 0x400 < 0x400 && 0 <= w % 0x400 < 0x400);
        assert(w == (w / 0x400) * 0x400 + w % 0x400);
    }
}

/// Every text is read back from its own units, whatever characters it holds.
pub proof fn law_a_text_is_read_back_from_its_units(s: Seq<char>)
    ensures
        text_of_units(all_units(s)) == s,
    decreases s.len(),
{
    if s.len() > 0 {
        let c = s[0];
        let rest = s.skip(1);
        let units = all_units(s);
        law_a_text_is_read_back_from_its_units(rest);
        lemma_units(c);
        if (c as int) < 0x10000 {
            assert(units[0] == units_of(c)[0]);
            assert(units.skip(1) =~= all_units(rest));
        } else {
            assert(units[0] == units_of(c)[0] && units[1] == units_of(c)[1]);
            assert(units.skip(2) =~= all_units(rest));
        }
        assert(text_of_units(units) =~= seq![c] + rest);
        assert(seq![c] + rest =~= s);
    }
}

/// A buffer holds what stands before its first zero, and all of it without one.
pub proof fn law_a_buffer_ends_at_its_first_zero(a: Seq<u16>, rest: Seq<u16>)
    requires
        !a.contains(0u16),
    ensures
        before_nul(a + seq![0u16] + rest) == a,
        before_nul(a) == a,
{
    let buf = a + seq![0u16] + rest;
    let n = a.len() as int;
    assert forall|j: int| 0 <= j < n implies !is_nul()(#[trigger] buf[j]) by {
        assert(buf[j] == a[j]);
    }
    assert(is_nul()(buf[n]));
    lemma_first_index_here(buf, is_nul(), n);
    assert(buf.take(n) =~= a);
    assert forall|j: int| 0 <= j < n implies !is_nul()(#[trigger] a[j]) by {}
    lemma_first_index_none(a, is_nul());
}

/// A display stands where its source says while it is part of the desktop, and
/// nowhere while it is not; a name that is empty is none.
pub proof fn law_a_display_stands_where_its_source_says(
    device_path: Seq<char>,
    gdi_name: Option<Seq<char>>,
    friendly_name: Option<Seq<char>>,
    source: Option<SourceMode>,
    active: bool,
    technology: i32,
)
    ensures
        ({
            let d = RawDisplayView::found(
                device_path,
                gdi_name,
                friendly_name,
                source,
                active,
                technology,
            );
            &&& d.device_path == device_path
            &&& d.is_attached == active
            &&& active ==> (source matches Some(m) ==> d.position == (m.x, m.y) && d.size == (
                m.width,
                m.height,
            ))
            &&& !active || source is None ==> d.position == (0i32, 0i32) && d.size == (0u32, 0u32)
            &&& gdi_name matches Some(n) ==> d.gdi_name == n
            &&& gdi_name is None ==> d.gdi_name.len() == 0
            &&& d.friendly_name matches Some(n) ==> n.len() > 0 && friendly_name == Some(n)
            &&& d.friendly_name is None ==> (friendly_name matches Some(n) ==> n.len() == 0)
            &&& d.is_internal <==> technology == 6 || technology == 11 || technology == 13
                || technology == -0x8000_0000
        }),
{
}

/// Every display that has a path is listed, as it was first reported: the
/// active ones before those that are merely known. Nothing else is listed.
pub proof fn law_every_monitor_is_listed(
    active: Seq<RawDisplayView>,
    known: Seq<RawDisplayView>,
    i: int,
)
    requires
        0 <= i < (active + known).len(),
        (active + known)[i].device_path.len() > 0,
        forall|j: int|
            0 <= j < i ==> (#[trigger] (active + known)[j]).device_path
                != (active + known)[i].device_path,
    ensures
        all_monitors(active, known).contains((active + known)[i]),
        forall|k: int|
            0 <= k < all_monitors(active, known).len() ==> (#[trigger] all_monitors(
                active,
                known,
            )[k]).device_path.len() > 0 && (active + known).contains(
                all_monitors(active, known)[k],
            ),
{
    let none = Seq::<RawDisplayView>::empty();
    lemma_listed_in_two(none, active, known);
    lemma_listed_first(active + known, i);
    lemma_listed_from(none, active + known);
}

proof fn lemma_listed_in_two(
    listed: Seq<RawDisplayView>,
    a: Seq<RawDisplayView>,
    b: Seq<RawDisplayView>,
)
    ensures
        listed_with(listed_with(listed, a), b) == listed_with(listed, a + b),
    decreases b.len(),
{
    if b.len() == 0 {
        assert(a + b =~= a);
    } else {
        lemma_listed_in_two(listed, a, b.drop_last());
        assert((a + b).drop_last() =~= a + b.drop_last());
        assert((a + b).last() == b.last());
    }
}

proof fn lemma_listed_from(listed: Seq<RawDisplayView>, more: Seq<RawDisplayView>)
    ensures
        listed.len() <= listed_with(listed, more).len(),
        forall|k: int|
            0 <= k < listed.len() ==> #[trigger] listed_with(listed, more)[k] == listed[k],
        forall|k: int|
            listed.len() <= k < listed_with(listed, more).len() ==> (#[trigger] listed_with(
                listed,
                more,
            )[k]).device_path.len() > 0 && more.contains(listed_with(listed, more)[k]),
    decreases more.len(),
{
    if more.len() > 0 {
        let before = more.drop_last();
        lemma_listed_from(listed, before);
        let front = listed_with(listed, before);
        let all = listed_with(listed, more);
        assert(more[more.len() - 1] == more.last());
        assert forall|k: int| listed.len() <= k < all.len() implies (
        #[trigger] all[k]).device_path.len() > 0 && more.contains(all[k]) by {
            if k < front.len() {
                assert(all[k] == front[k]);
                assert(before.contains(front[k]));
                let m = choose|m: int| 0 <= m < before.len() && before[m] == front[k];
                assert(more[m] == all[k]);
            }
        }
    }
}

proof fn lemma_listed_first(more: Seq<RawDisplayView>, i: int)
    requires
        0 <= i < more.len(),
        more[i].device_path.len() > 0,
        forall|j: int| 0 <= j < i ==> (#[trigger] more[j]).device_path != more[i].device_path,
    ensures
        listed_with(Seq::empty(), more).contains(more[i]),
    decreases more.len(),
{
    let none = Seq::<RawDisplayView>::empty();
    let before = more.drop_last();
    let front = listed_with(none, before);
    let all = listed_with(none, more);
    if i < more.len() - 1 {
        assert(before[i] == more[i]);
        assert forall|j: int| 0 <= j < i implies (#[trigger] before[j]).device_path
            != before[i].device_path by {
            assert(before[j] == more[j]);
        }
        lemma_listed_first(before, i);
        let k = choose|k: int| 0 <= k < front.len() && front[k] == more[i];
        assert(all[k] == more[i]);
    } else {
        lemma_listed_from(none, before);
        if has_path(front, more.last().device_path) {
            let k = choose|k: int|
                0 <= k < front.len() && (#[trigger] front[k]).device_path
                    == more.last().device_path;
            assert(before.contains(front[k]));
            let m = choose|m: int| 0 <= m < before.len() && before[m] == front[k];
            assert(more[m].device_path == more[i].device_path);
        }
        assert(all[all.len() - 1] == more[i]);
    }
}

/// A display is as large as its size from where it stands, is the primary one
/// exactly where it stands at the origin, and is built in also where it is
/// protected as such.
pub proof fn law_a_display_is_as_it_was_reported(raw: RawDisplayView, protected: Seq<Seq<char>>)
    requires
        on_the_map(raw),
    ensures
        ({
            let d = display_of(raw, protected);
            &&& d.gdi_name == raw.gdi_name && d.device_path == raw.device_path
            &&& d.rect.left == raw.position.0 && d.rect.top == raw.position.1
            &&& d.rect.right - d.rect.left == raw.size.0
            &&& d.rect.bottom - d.rect.top == raw.size.1
            &&& d.is_attached == raw.is_attached
            &&& d.is_primary <==> raw.is_attached && raw.position.0 == 0 && raw.position.1 == 0
            &&& raw.is_internal ==> d.is_internal
            &&& d.is_internal && !raw.is_internal ==> exists|i: int|
                0 <= i < protected.len() && d.matches_id(#[trigger] protected[i])
            &&& (exists|i: int| 0 <= i < protected.len() && d.matches_id(#[trigger] protected[i]))
                ==> d.is_internal
        }),
{
    let d = display_of(raw, protected);
    let bare = DesktopDisplayView { is_internal: false, ..d };
    assert(forall|id: Seq<char>| bare.matches_id(id) == #[trigger] d.matches_id(id));
    if protected_by(protected, bare) {
        let i = choose|i: int|
            0 <= i < protected.len() && bare.matches_id(#[trigger] protected[i]);
        assert(d.matches_id(protected[i]));
    }
    if exists|i: int| 0 <= i < protected.len() && d.matches_id(#[trigger] protected[i]) {
        let i = choose|i: int| 0 <= i < protected.len() && d.matches_id(#[trigger] protected[i]);
        assert(bare.matches_id(protected[i]));
        assert(protected_by(protected, bare));
    }
}

/// Two paths are of one display where one of them begins as the other is
/// spelled, whichever case the letters are in.
pub proof fn law_a_path_is_known_by_its_beginning(candidate: Seq<char>, wanted: Seq<char>)
    ensures
        same_path(candidate, wanted) <==> {
            let p = trimmed(candidate);
            let q = trimmed(wanted);
            &&& p.len() > 0
            &&& q.len() > 0
            &&& forall|i: int| 0 <= i < p.len() && i < q.len() ==> same_letter(#[trigger] p[i], q[i])
        },
{
    let p = trimmed(candidate);
    let q = trimmed(wanted);
    let a = upper_all(p);
    let b = upper_all(q);
    assert forall|i: int| 0 <= i < p.len() && i < q.len() implies (a[i] == b[i] <==> same_letter(
        #[trigger] p[i],
        q[i],
    )) by {
        lemma_upper_letter(p[i], q[i]);
    }
    if b.is_prefix_of(a) {
        assert forall|i: int| 0 <= i < p.len() && i < q.len() implies same_letter(
            #[trigger] p[i],
            q[i],
        ) by {
            assert(a.subrange(0, b.len() as int)[i] == b[i]);
        }
    }
    if a.is_prefix_of(b) {
        assert forall|i: int| 0 <= i < p.len() && i < q.len() implies same_letter(
            #[trigger] p[i],
            q[i],
        ) by {
            assert(b.subrange(0, a.len() as int)[i] == a[i]);
        }
    }
    if forall|i: int| 0 <= i < p.len() && i < q.len() ==> same_letter(#[trigger] p[i], q[i]) {
        if q.len() <= p.len() {
            assert forall|i: int| 0 <= i < b.len() implies b[i] == a[i] by {
                assert(same_letter(p[i], q[i]));
            }
            assert(b =~= a.subrange(0, b.len() as int));
        } else {
            assert forall|i: int| 0 <= i < a.len() implies b[i] == a[i] by {
                assert(same_letter(p[i], q[i]));
            }
            assert(a =~= b.subrange(0, a.len() as int));
        }
    }
}

/// A path is one to change where it leads to the display and is not yet as it
/// is to be.
pub proof fn law_only_what_is_not_yet_so_is_changed(
    p: PathFactsView,
    device_path: Seq<char>,
    make_active: bool,
)
    ensures
        changes(device_path, make_active)(p) <==> p.active != make_active && leads_to(device_path)(
            p,
        ),
        leads_to(device_path)(p) <==> (p.device_path matches Some(dp) && same_path(
            dp,
            device_path,
        )),
{
}

/// A display is made the primary one exactly where it is part of the desktop,
/// can be addressed and is not the primary one already.
pub proof fn law_the_role_goes_to_a_display_on_the_desktop(d: DesktopDisplayView)
    ensures
        primary_decision_view(d) == Ok::<bool, DesktopErrorView>(true) <==> !d.is_primary
            && d.is_attached && d.device_path.len() > 0,
        primary_decision_view(d) == Ok::<bool, DesktopErrorView>(false) <==> d.is_primary,
{
}

/// A display may be detached exactly where nothing protects it and nothing else
/// speaks against it.
pub proof fn law_what_nothing_speaks_against_may_leave(
    protected: Seq<Seq<char>>,
    displays: Seq<DesktopDisplayView>,
    d: DesktopDisplayView,
)
    ensures
        detach_refusal(protected, displays, d) is None <==> detach_problem(displays, d) is None
            && forall|i: int| 0 <= i < protected.len() ==> !d.matches_id(#[trigger] protected[i]),
{
}

/// Reading the layout is tried again exactly where it outgrew its buffer and
/// tries are left, and is over where it was read.
pub proof fn law_reading_the_layout_is_tried_again(code: u32, left: nat)
    ensures
        query_step_view(code, left) is Done <==> code == 0,
        query_step_view(code, left) is Again <==> code == 122 && left > 0,
{
}

/// A change failed exactly where its status is not nought, and the status is
/// told.
pub proof fn law_a_change_fails_by_its_status(
    operation: Seq<char>,
    staged_on: Option<Seq<char>>,
    code: i32,
    call: u32,
)
    ensures
        change_problem(operation, staged_on, code) is None <==> code == 0,
        call_problem(call, operation) is None <==> call == 0,
        change_problem(operation, staged_on, code) matches Some(DesktopErrorView::OsCall {
            operation: said,
            detail,
        }) ==> operation.is_prefix_of(said) && has_text(detail, signed_decimal(code as int)),
        change_problem(operation, staged_on, code) is Some ==> change_problem(
            operation,
            staged_on,
            code,
        )->0 is OsCall,
{
    if let Some(DesktopErrorView::OsCall { operation: said, detail }) = change_problem(
        operation,
        staged_on,
        code,
    ) {
        assert(said.subrange(0, operation.len() as int) =~= operation);
        let tail = ": "@ + change_reason(code);
        lemma_has_text_between(
            "ChangeDisplaySettingsEx returned "@,
            signed_decimal(code as int),
            tail,
        );
        assert("ChangeDisplaySettingsEx returned "@ + signed_decimal(code as int) + tail =~= detail);
    }
}

/// A window that hung out of its display, or does not fit on the other, begins
/// where that one begins; one that would hang out at the far end ends where it
/// ends.
pub proof fn law_a_window_is_kept_on_the_display(
    window_from: int,
    window_to: int,
    source_from: int,
    target_from: int,
    target_to: int,
)
    requires
        i32::MIN <= target_from <= target_to <= i32::MAX,
        window_from <= window_to,
    ensures
        ({
            let at = placed(window_from, window_to, source_from, target_from, target_to);
            let width = window_to - window_from;
            &&& window_from <= source_from ==> at == target_from
            &&& width >= target_to - target_from ==> at == target_from
            &&& window_from > source_from && width <= target_to - target_from && (window_from
                - source_from) + width > target_to - target_from ==> at + width == target_to
        }),
{
}

/// The windows told as missing are those that were not put back: each of them,
/// and no other.
pub proof fn law_the_missing_are_those_not_put_back(
    windows: Seq<MovedWindowView>,
    done: Seq<Seq<char>>,
    title: Seq<char>,
)
    ensures
        missing_titles(windows, done).contains(title) <==> !done.contains(title) && exists|i: int|
            0 <= i < windows.len() && (#[trigger] windows[i]).title == title,
{
    let p = not_done(done);
    let kept = windows.filter(p);
    let told = missing_titles(windows, done);
    lemma_filter_members(windows, p);
    if told.contains(title) {
        let k = choose|k: int| 0 <= k < told.len() && told[k] == title;
        assert(p(kept[k]) && windows.contains(kept[k]));
        let i = choose|i: int| 0 <= i < windows.len() && windows[i] == kept[k];
        assert(windows[i].title == title);
    }
    if !done.contains(title) && exists|i: int|
        0 <= i < windows.len() && (#[trigger] windows[i]).title == title {
        let i = choose|i: int| 0 <= i < windows.len() && (#[trigger] windows[i]).title == title;
        assert(p(windows[i]));
        assert(kept.contains(windows[i]));
        let k = choose|k: int| 0 <= k < kept.len() && kept[k] == windows[i];
        assert(told[k] == title);
    }
}

/// A window is wanted back where it has the title and no window of that title
/// was put back before.
pub proof fn law_a_window_is_wanted_once(
    w: MovedWindowView,
    title: Seq<char>,
    done: Seq<Seq<char>>,
)
    ensures
        still_wanted(title, done)(w) <==> w.title == title && !done.contains(title),
        !still_wanted(title, done.push(title))(w),
{
    assert(done.push(title)[done.len() as int] == title);
}

/// A mode is the one of a source exactly where it is a source's, with that id,
/// on that adapter.
pub proof fn law_a_source_is_known_by_id_and_adapter(
    m: SourceMode,
    id: u32,
    low: u32,
    high: i32,
)
    ensures
        describes(id, low, high)(m) <==> m.is_source && (m.id, m.adapter_low, m.adapter_high) == (
            id,
            low,
            high,
        ),
{
}

} // verus!

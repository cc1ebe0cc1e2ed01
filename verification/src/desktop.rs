//! Managing *this* computer's desktop around a monitor that is being sent to
//! the other computer.
//!
//! This exists because of a property of the hardware: these monitors keep
//! hot-plug detect asserted on every connected input, so Windows never
//! notices the screen has gone. That is exactly what makes a switch instant
//! and leaves the window layout untouched — and it is also why a window
//! sitting on that display becomes unreachable until the monitor comes back.
//!
//! Detaching is the only operation here that can leave someone unable to see
//! anything, so it refuses to act unless another usable display will remain.

use vstd::prelude::*;

use crate::seqs::{
    first_index, lemma_filter_members, lemma_filter_take, lemma_filter_take_none,
    lemma_first_index, lemma_first_index_here, lemma_first_index_none,
};
use crate::text::{
    ascii_upper, cat3, cat4, chars_of, copy_opt, lemma_replaced_by_one, lemma_upper_letter,
    opt_text, replace, replaced, same, same_letter, starts_with, string_of, texts, trim, trimmed,
    upper_all, uppered,
};

verus! {

// ---------------------------------------------------------------------------
// Errors
// ---------------------------------------------------------------------------

#[derive(Debug, PartialEq, Eq)]
pub enum DesktopError {
    Unsupported,
    DisplayNotFound(String),
    RefusedUnsafe { display: String, reason: String },
    OsCall { operation: String, detail: String },
    NoSavedLayout(String),
}

pub enum DesktopErrorView {
    Unsupported,
    DisplayNotFound(Seq<char>),
    RefusedUnsafe { display: Seq<char>, reason: Seq<char> },
    OsCall { operation: Seq<char>, detail: Seq<char> },
    NoSavedLayout(Seq<char>),
}

impl DeepView for DesktopError {
    type V = DesktopErrorView;

    open spec fn deep_view(&self) -> DesktopErrorView {
        match self {
            DesktopError::Unsupported => DesktopErrorView::Unsupported,
            DesktopError::DisplayNotFound(s) => DesktopErrorView::DisplayNotFound(s@),
            DesktopError::RefusedUnsafe { display, reason } => DesktopErrorView::RefusedUnsafe {
                display: display@,
                reason: reason@,
            },
            DesktopError::OsCall { operation, detail } => DesktopErrorView::OsCall {
                operation: operation@,
                detail: detail@,
            },
            DesktopError::NoSavedLayout(s) => DesktopErrorView::NoSavedLayout(s@),
        }
    }
}

impl Clone for DesktopError {
    fn clone(&self) -> (r: Self)
        ensures
            r == *self,
    {
        match self {
            DesktopError::Unsupported => DesktopError::Unsupported,
            DesktopError::DisplayNotFound(s) => DesktopError::DisplayNotFound(s.clone()),
            DesktopError::RefusedUnsafe { display, reason } => DesktopError::RefusedUnsafe {
                display: display.clone(),
                reason: reason.clone(),
            },
            DesktopError::OsCall { operation, detail } => DesktopError::OsCall {
                operation: operation.clone(),
                detail: detail.clone(),
            },
            DesktopError::NoSavedLayout(s) => DesktopError::NoSavedLayout(s.clone()),
        }
    }
}

impl DesktopErrorView {
    pub open spec fn message(self) -> Seq<char> {
        match self {
            DesktopErrorView::Unsupported => {
                "desktop management is not available on this platform"@
            },
            DesktopErrorView::DisplayNotFound(s) => "no display on this computer matches `"@ + s
                + "`"@,
            DesktopErrorView::RefusedUnsafe { display, reason } => "refusing to detach `"@ + display
                + "`: "@ + reason,
            DesktopErrorView::OsCall { operation, detail } => operation + " failed: "@ + detail,
            DesktopErrorView::NoSavedLayout(s) => "no saved layout for `"@ + s
                + "`, so it cannot be restored"@,
        }
    }
}

impl DesktopError {
    pub fn to_string(&self) -> (r: String)
        ensures
            r@ == self.deep_view().message(),
    {
        match self {
            DesktopError::Unsupported => {
                "desktop management is not available on this platform".to_owned()
            },
            DesktopError::DisplayNotFound(s) => cat3(
                "no display on this computer matches `",
                s.as_str(),
                "`",
            ),
            DesktopError::RefusedUnsafe { display, reason } => cat4(
                "refusing to detach `",
                display.as_str(),
                "`: ",
                reason.as_str(),
            ),
            DesktopError::OsCall { operation, detail } => cat3(
                operation.as_str(),
                " failed: ",
                detail.as_str(),
            ),
            DesktopError::NoSavedLayout(s) => cat3(
                "no saved layout for `",
                s.as_str(),
                "`, so it cannot be restored",
            ),
        }
    }
}

// ---------------------------------------------------------------------------
// Rectangles
// ---------------------------------------------------------------------------

/// A rectangle in virtual-desktop coordinates.
#[derive(Debug, Clone, Copy, PartialEq, Eq, Structural)]
pub struct Rect {
    pub left: i32,
    pub top: i32,
    pub right: i32,
    pub bottom: i32,
}

impl Default for Rect {
    fn default() -> (r: Self)
        ensures
            r == (Rect { left: 0, top: 0, right: 0, bottom: 0 }),
    {
        Rect { left: 0, top: 0, right: 0, bottom: 0 }
    }
}

/// Half of a number, towards zero.
pub open spec fn half(n: int) -> int {
    if n >= 0 {
        n / 2
    } else {
        -((-n) / 2)
    }
}

impl Rect {
    pub open spec fn spec_width(self) -> int {
        self.right - self.left
    }

    pub open spec fn spec_height(self) -> int {
        self.bottom - self.top
    }

    pub open spec fn area(self) -> int {
        self.spec_width() * self.spec_height()
    }

    /// Its sides are small enough to be told as numbers.
    pub open spec fn fits(self) -> bool {
        &&& i32::MIN <= self.spec_width() <= i32::MAX
        &&& i32::MIN <= self.spec_height() <= i32::MAX
    }

    pub open spec fn middle(self) -> (int, int) {
        (self.left + half(self.spec_width()), self.top + half(self.spec_height()))
    }

    pub open spec fn holds(self, x: int, y: int) -> bool {
        self.left <= x < self.right && self.top <= y < self.bottom
    }

    pub open spec fn empty(self) -> bool {
        self.spec_width() <= 0 || self.spec_height() <= 0
    }

    pub fn width(&self) -> (r: i32)
        requires
            self.fits(),
        ensures
            r == self.spec_width(),
    {
        self.right - self.left
    }

    pub fn height(&self) -> (r: i32)
        requires
            self.fits(),
        ensures
            r == self.spec_height(),
    {
        self.bottom - self.top
    }

    pub fn center(&self) -> (r: (i32, i32))
        requires
            self.fits(),
        ensures
            (r.0 as int, r.1 as int) == self.middle(),
    {
        (midpoint(self.left, self.right), midpoint(self.top, self.bottom))
    }

    pub fn contains(&self, x: i32, y: i32) -> (r: bool)
        ensures
            r == self.holds(x as int, y as int),
    {
        x >= self.left && x < self.right && y >= self.top && y < self.bottom
    }

    pub fn is_empty(&self) -> (r: bool)
        ensures
            r == self.empty(),
    {
        self.right <= self.left || self.bottom <= self.top
    }
}

fn midpoint(from: i32, to: i32) -> (r: i32)
    requires
        i32::MIN <= to - from <= i32::MAX,
    ensures
        r == from + half(to - from),
{
    let d: i64 = to as i64 - from as i64;
    let h: i64 = if d >= 0 {
        d / 2
    } else {
        -((-d) / 2)
    };
    (from as i64 + h) as i32
}

fn area_of(r: &Rect) -> (a: i128)
    ensures
        a == r.area(),
{
    let w: i128 = r.right as i128 - r.left as i128;
    let h: i128 = r.bottom as i128 - r.top as i128;
    assert(-0x2_0000_0000 <= w <= 0x2_0000_0000);
    assert(-0x2_0000_0000 <= h <= 0x2_0000_0000);
    assert(-0x4_0000_0000_0000_0000 <= w * h <= 0x4_0000_0000_0000_0000) by (nonlinear_arith)
        requires
            -0x2_0000_0000 <= w <= 0x2_0000_0000,
            -0x2_0000_0000 <= h <= 0x2_0000_0000,
    ;
    w * h
}

// ---------------------------------------------------------------------------
// Displays
// ---------------------------------------------------------------------------

/// One display as this computer's desktop sees it.
#[derive(Debug, PartialEq, Eq)]
pub struct DesktopDisplay {
    /// GDI adapter name, e.g. `\\.\DISPLAY5`. Addresses the display to the OS.
    pub gdi_name: String,
    /// Device interface path, e.g. `\\?\DISPLAY#AOC2702#5&23e...&0&UID4613`.
    /// Shares a prefix with the id a monitor backend reports, which is how a
    /// monitor is matched between the two layers.
    pub device_path: String,
    pub friendly_name: Option<String>,
    pub rect: Rect,
    pub is_primary: bool,
    pub is_attached: bool,
    /// Internal laptop panel. Never detached: it is the recovery display.
    pub is_internal: bool,
}

pub struct DesktopDisplayView {
    pub gdi_name: Seq<char>,
    pub device_path: Seq<char>,
    pub friendly_name: Option<Seq<char>>,
    pub rect: Rect,
    pub is_primary: bool,
    pub is_attached: bool,
    pub is_internal: bool,
}

impl DeepView for DesktopDisplay {
    type V = DesktopDisplayView;

    open spec fn deep_view(&self) -> DesktopDisplayView {
        DesktopDisplayView {
            gdi_name: self.gdi_name@,
            device_path: self.device_path@,
            friendly_name: opt_text(self.friendly_name),
            rect: self.rect,
            is_primary: self.is_primary,
            is_attached: self.is_attached,
            is_internal: self.is_internal,
        }
    }
}

impl Clone for DesktopDisplay {
    fn clone(&self) -> (r: Self)
        ensures
            r.deep_view() == self.deep_view(),
    {
        DesktopDisplay {
            gdi_name: self.gdi_name.clone(),
            device_path: self.device_path.clone(),
            friendly_name: copy_opt(&self.friendly_name),
            rect: self.rect,
            is_primary: self.is_primary,
            is_attached: self.is_attached,
            is_internal: self.is_internal,
        }
    }
}

/// A path as it is compared: trimmed, in capitals, with backslashes.
pub open spec fn normal_path(s: Seq<char>) -> Seq<char> {
    replaced(upper_all(trimmed(s)), '/', "\\"@)
}

/// Whether one of two texts begins with the other, and both say something.
pub open spec fn either_begins(a: Seq<char>, b: Seq<char>) -> bool {
    a.len() > 0 && b.len() > 0 && (b.is_prefix_of(a) || a.is_prefix_of(b))
}

impl DesktopDisplayView {
    /// Whether this display is the one a monitor backend calls `backend_id`.
    /// Compared by prefix because the device interface path carries a trailing
    /// GUID that the backend's id does not.
    pub open spec fn matches_id(self, backend_id: Seq<char>) -> bool {
        either_begins(normal_path(self.device_path), normal_path(backend_id))
    }
}

fn normalise(s: &str) -> (r: String)
    ensures
        r@ == normal_path(s@),
{
    let cs = chars_of(s);
    let upper = uppered(trim(cs.as_slice()));
    let text = string_of(upper.as_slice());
    replace(text.as_str(), '/', "\\")
}

/// Whether one of two texts begins with the other, and both say something.
pub fn begins_either(a: &str, b: &str) -> (r: bool)
    ensures
        r == either_begins(a@, b@),
{
    let x = chars_of(a);
    let y = chars_of(b);
    x.len() > 0 && y.len() > 0 && (starts_with(x.as_slice(), y.as_slice()) || starts_with(
        y.as_slice(),
        x.as_slice(),
    ))
}

impl DesktopDisplay {
    /// Whether this display is the one a monitor backend calls `backend_id`.
    ///
    /// Compared by prefix because the device interface path carries a trailing
    /// GUID that the backend's id does not.
    pub fn matches_backend_id(&self, backend_id: &str) -> (r: bool)
        ensures
            r == self.deep_view().matches_id(backend_id@),
    {
        let mine = normalise(self.device_path.as_str());
        let theirs = normalise(backend_id);
        begins_either(mine.as_str(), theirs.as_str())
    }
}

/// Enough of a display's mode to put it back exactly where it was.
#[derive(Debug, Clone, Copy, PartialEq, Eq, Structural)]
pub struct SavedDisplayMode {
    pub width: u32,
    pub height: u32,
    pub pos_x: i32,
    pub pos_y: i32,
    pub refresh_hz: u32,
    pub bits_per_pixel: u32,
}

// ---------------------------------------------------------------------------
// Moved windows
// ---------------------------------------------------------------------------

/// A window a sweep moved, and where it was before.
///
/// Identified by title rather than by window handle: a handle is only
/// meaningful inside the process that read it, and sweep and restore are
/// separate runs of the program. A title can be ambiguous or can change, so
/// restoring is best-effort and says which windows it could not find.
#[derive(Debug, PartialEq, Eq)]
pub struct MovedWindow {
    pub title: String,
    /// Where it was before the sweep, in virtual-desktop coordinates.
    pub from: Rect,
    /// Whether it was maximized, so restoring can maximize it again.
    pub was_maximized: bool,
}

pub struct MovedWindowView {
    pub title: Seq<char>,
    pub from: Rect,
    pub was_maximized: bool,
}

impl DeepView for MovedWindow {
    type V = MovedWindowView;

    open spec fn deep_view(&self) -> MovedWindowView {
        MovedWindowView {
            title: self.title@,
            from: self.from,
            was_maximized: self.was_maximized,
        }
    }
}

impl Clone for MovedWindow {
    fn clone(&self) -> (r: Self)
        ensures
            r == *self,
    {
        MovedWindow {
            title: self.title.clone(),
            from: self.from,
            was_maximized: self.was_maximized,
        }
    }
}

/// What a sweep actually moved.
#[derive(Debug, PartialEq, Eq)]
pub struct SweepReport {
    pub moved: Vec<MovedWindow>,
    /// Windows found on the display that were deliberately left alone.
    pub skipped: Vec<String>,
}

pub struct SweepReportView {
    pub moved: Seq<MovedWindowView>,
    pub skipped: Seq<Seq<char>>,
}

impl DeepView for SweepReport {
    type V = SweepReportView;

    open spec fn deep_view(&self) -> SweepReportView {
        SweepReportView { moved: self.moved.deep_view(), skipped: texts(self.skipped@) }
    }
}

impl Default for SweepReport {
    fn default() -> (r: Self)
        ensures
            r.deep_view().moved == Seq::<MovedWindowView>::empty(),
            r.deep_view().skipped == Seq::<Seq<char>>::empty(),
    {
        let r = SweepReport { moved: Vec::new(), skipped: Vec::new() };
        assert(r.deep_view().moved =~= Seq::<MovedWindowView>::empty());
        assert(r.deep_view().skipped =~= Seq::<Seq<char>>::empty());
        r
    }
}

impl SweepReport {
    pub fn is_empty(&self) -> (r: bool)
        ensures
            r == (self.deep_view().moved.len() == 0 && self.deep_view().skipped.len() == 0),
    {
        self.moved.len() == 0 && self.skipped.len() == 0
    }
}

/// What a restore managed to put back.
#[derive(Debug, PartialEq, Eq)]
pub struct RestoreReport {
    pub restored: Vec<String>,
    /// Windows that could not be found again — closed, renamed, or opened on
    /// another virtual desktop since the sweep.
    pub missing: Vec<String>,
}

pub struct RestoreReportView {
    pub restored: Seq<Seq<char>>,
    pub missing: Seq<Seq<char>>,
}

impl DeepView for RestoreReport {
    type V = RestoreReportView;

    open spec fn deep_view(&self) -> RestoreReportView {
        RestoreReportView { restored: texts(self.restored@), missing: texts(self.missing@) }
    }
}

impl Default for RestoreReport {
    fn default() -> (r: Self)
        ensures
            r.deep_view().restored == Seq::<Seq<char>>::empty(),
            r.deep_view().missing == Seq::<Seq<char>>::empty(),
    {
        let r = RestoreReport { restored: Vec::new(), missing: Vec::new() };
        assert(r.deep_view().restored =~= Seq::<Seq<char>>::empty());
        assert(r.deep_view().missing =~= Seq::<Seq<char>>::empty());
        r
    }
}

// ---------------------------------------------------------------------------
// Desktop managers
// ---------------------------------------------------------------------------

/// What a look at the desktop shows, or why it cannot be had.
pub type Shown = Result<Seq<DesktopDisplayView>, Seq<char>>;

/// What came of something that was tried.
pub type Tried = Result<(), Seq<char>>;

pub open spec fn desktop_look(r: Result<Vec<DesktopDisplay>, DesktopError>) -> Shown {
    match r {
        Ok(v) => Ok(v.deep_view()),
        Err(e) => Err(e.deep_view().message()),
    }
}

pub open spec fn tried(r: Result<(), DesktopError>) -> Tried {
    match r {
        Ok(_) => Ok(()),
        Err(e) => Err(e.deep_view().message()),
    }
}

pub open spec fn with_message<T>(r: Result<T, DesktopError>) -> Result<T, Seq<char>> {
    match r {
        Ok(v) => Ok(v),
        Err(e) => Err(e.deep_view().message()),
    }
}

pub open spec fn report_result(r: Result<RestoreReport, DesktopError>) -> Result<
    RestoreReportView,
    Seq<char>,
> {
    match r {
        Ok(v) => Ok(v.deep_view()),
        Err(e) => Err(e.deep_view().message()),
    }
}

/// One thing that was asked of the desktop or done to it, with what came back.
pub enum DeskCall {
    /// The displays were looked at.
    Looked(Shown),
    /// Windows were to be moved off a display.
    Swept(DesktopDisplayView, Result<SweepReport, Seq<char>>),
    /// Windows were to be put back.
    PutBack(Seq<MovedWindow>, Result<RestoreReportView, Seq<char>>),
    /// The primary role was to go to a display.
    Promoted(DesktopDisplayView, Tried),
    /// A display was to be detached.
    Detached(DesktopDisplayView, Result<SavedDisplayMode, Seq<char>>),
    /// A display was to be attached again, in a mode.
    Attached(DesktopDisplayView, SavedDisplayMode, Tried),
}

/// Operations on this computer's desktop.
///
/// Every method must be a no-op on a platform that cannot implement it, rather
/// than an error that blocks a switch: the monitor switch is the thing the
/// user asked for, and desktop tidying is a convenience on top. Everything that
/// is asked and done is kept in a record, in order.
pub trait DesktopManager {
    /// Everything that was asked and done so far.
    spec fn done(&self) -> Seq<DeskCall>;

    /// What the manager is called.
    spec fn called(&self) -> Seq<char>;

    fn name(&self) -> (r: &str)
        ensures
            r@ == self.called(),
    ;

    fn displays(&mut self) -> (r: Result<Vec<DesktopDisplay>, DesktopError>)
        ensures
            final(self).called() == old(self).called(),
            final(self).done() == old(self).done().push(DeskCall::Looked(desktop_look(r))),
    ;

    /// Move windows off `display` onto somewhere still visible.
    fn sweep_windows_off(&mut self, display: &DesktopDisplay) -> (r: Result<
        SweepReport,
        DesktopError,
    >)
        ensures
            final(self).called() == old(self).called(),
            final(self).done() == old(self).done().push(
                DeskCall::Swept(display.deep_view(), with_message(r)),
            ),
    ;

    /// Put previously swept windows back where they were.
    fn restore_windows(&mut self, windows: &[MovedWindow]) -> (r: Result<
        RestoreReport,
        DesktopError,
    >)
        ensures
            final(self).called() == old(self).called(),
            final(self).done() == old(self).done().push(
                DeskCall::PutBack(windows@, report_result(r)),
            ),
    ;

    /// Make `display` the primary one.
    ///
    /// Needed because Windows refuses to detach the primary display, so
    /// releasing one that happens to be primary means promoting another
    /// first. Implementations must reposition the rest of the desktop to
    /// match, since the primary display defines the origin.
    fn set_primary(&mut self, display: &DesktopDisplay) -> (r: Result<(), DesktopError>)
        ensures
            final(self).called() == old(self).called(),
            final(self).done() == old(self).done().push(
                DeskCall::Promoted(display.deep_view(), tried(r)),
            ),
    ;

    /// Detach `display` from the desktop, returning what is needed to restore
    /// it. Must refuse when no other usable display would remain.
    fn detach(&mut self, display: &DesktopDisplay) -> (r: Result<SavedDisplayMode, DesktopError>)
        ensures
            final(self).called() == old(self).called(),
            final(self).done() == old(self).done().push(
                DeskCall::Detached(display.deep_view(), with_message(r)),
            ),
    ;

    /// Reattach `display` using a mode previously returned by [`Self::detach`].
    fn attach(&mut self, display: &DesktopDisplay, saved: SavedDisplayMode) -> (r: Result<
        (),
        DesktopError,
    >)
        ensures
            final(self).called() == old(self).called(),
            final(self).done() == old(self).done().push(
                DeskCall::Attached(display.deep_view(), saved, tried(r)),
            ),
    ;
}

/// Finds nothing and does nothing. Used on platforms without an
/// implementation, so the calling code needs no special case of its own.
pub struct NoopDesktop {
    asked: Ghost<Seq<DeskCall>>,
}

impl NoopDesktop {
    pub fn new() -> (r: Self)
        ensures
            r.done() == Seq::<DeskCall>::empty(),
    {
        NoopDesktop { asked: Ghost(Seq::empty()) }
    }
}

impl DesktopManager for NoopDesktop {
    closed spec fn done(&self) -> Seq<DeskCall> {
        self.asked@
    }

    open spec fn called(&self) -> Seq<char> {
        "none"@
    }

    fn name(&self) -> (r: &str) {
        "none"
    }

    fn displays(&mut self) -> (r: Result<Vec<DesktopDisplay>, DesktopError>)
        ensures
            r matches Ok(v) && v.deep_view() == Seq::<DesktopDisplayView>::empty(),
    {
        let none: Vec<DesktopDisplay> = Vec::new();
        assert(none.deep_view() =~= Seq::<DesktopDisplayView>::empty());
        let r: Result<Vec<DesktopDisplay>, DesktopError> = Ok(none);
        self.asked = Ghost(self.asked@.push(DeskCall::Looked(desktop_look(r))));
        r
    }

    fn sweep_windows_off(&mut self, display: &DesktopDisplay) -> (r: Result<
        SweepReport,
        DesktopError,
    >)
        ensures
            r matches Ok(report) && report.deep_view().moved.len() == 0
                && report.deep_view().skipped.len() == 0,
    {
        let r: Result<SweepReport, DesktopError> = Ok(SweepReport::default());
        self.asked = Ghost(self.asked@.push(DeskCall::Swept(display.deep_view(), with_message(r))));
        r
    }

    fn restore_windows(&mut self, windows: &[MovedWindow]) -> (r: Result<
        RestoreReport,
        DesktopError,
    >)
        ensures
            r matches Ok(report) && report.deep_view().restored.len() == 0
                && report.deep_view().missing.len() == 0,
    {
        let r: Result<RestoreReport, DesktopError> = Ok(RestoreReport::default());
        self.asked = Ghost(self.asked@.push(DeskCall::PutBack(windows@, report_result(r))));
        r
    }

    fn set_primary(&mut self, display: &DesktopDisplay) -> (r: Result<(), DesktopError>)
        ensures
            r == Err::<(), DesktopError>(DesktopError::Unsupported),
    {
        let r: Result<(), DesktopError> = Err(DesktopError::Unsupported);
        self.asked = Ghost(self.asked@.push(DeskCall::Promoted(display.deep_view(), tried(r))));
        r
    }

    fn detach(&mut self, display: &DesktopDisplay) -> (r: Result<SavedDisplayMode, DesktopError>)
        ensures
            r == Err::<SavedDisplayMode, DesktopError>(DesktopError::Unsupported),
    {
        let r: Result<SavedDisplayMode, DesktopError> = Err(DesktopError::Unsupported);
        self.asked = Ghost(
            self.asked@.push(DeskCall::Detached(display.deep_view(), with_message(r))),
        );
        r
    }

    fn attach(&mut self, display: &DesktopDisplay, saved: SavedDisplayMode) -> (r: Result<
        (),
        DesktopError,
    >)
        ensures
            r == Err::<(), DesktopError>(DesktopError::Unsupported),
    {
        let r: Result<(), DesktopError> = Err(DesktopError::Unsupported);
        self.asked = Ghost(
            self.asked@.push(DeskCall::Attached(display.deep_view(), saved, tried(r))),
        );
        r
    }
}

// ---------------------------------------------------------------------------
// Choosing displays
// ---------------------------------------------------------------------------

/// Holds of the displays that are left when one leaves: attached, another one,
/// and not empty.
pub open spec fn remains_without(gdi_name: Seq<char>) -> spec_fn(DesktopDisplayView) -> bool {
    |d: DesktopDisplayView| d.is_attached && d.gdi_name != gdi_name && !d.rect.empty()
}

/// The displays that are left when one leaves.
pub open spec fn remaining(
    displays: Seq<DesktopDisplayView>,
    leaving: DesktopDisplayView,
) -> Seq<DesktopDisplayView> {
    displays.filter(remains_without(leaving.gdi_name))
}

pub open spec fn primary_one() -> spec_fn(DesktopDisplayView) -> bool {
    |d: DesktopDisplayView| d.is_primary
}

/// `i` is the place of the largest display, the last of them if several are as
/// large.
pub open spec fn is_largest(displays: Seq<DesktopDisplayView>, i: int) -> bool {
    &&& 0 <= i < displays.len()
    &&& forall|j: int|
        0 <= j < displays.len() ==> (#[trigger] displays[j]).rect.area() <= displays[i].rect.area()
    &&& forall|j: int|
        i < j < displays.len() ==> (#[trigger] displays[j]).rect.area() < displays[i].rect.area()
}

/// The largest display, the last of them if several are as large.
pub open spec fn largest(displays: Seq<DesktopDisplayView>) -> Option<DesktopDisplayView> {
    if displays.len() == 0 {
        None
    } else {
        Some(displays[choose|i: int| is_largest(displays, i)])
    }
}

/// Where a swept window should move to: the primary display, else the largest
/// one that is left.
pub open spec fn sweep_choice(
    displays: Seq<DesktopDisplayView>,
    leaving: DesktopDisplayView,
) -> Option<DesktopDisplayView> {
    let left = remaining(displays, leaving);
    match first_index(left, primary_one()) {
        Some(i) => Some(left[i]),
        None => largest(left),
    }
}

/// Why a display must not be detached, if it must not. Being the primary one
/// is no reason: another display can be promoted first.
pub open spec fn detach_problem(
    displays: Seq<DesktopDisplayView>,
    display: DesktopDisplayView,
) -> Option<Seq<char>> {
    if display.is_internal {
        Some("it is the built-in panel, which is kept available as the recovery display"@)
    } else if remaining(displays, display).len() == 0 {
        Some("it is the only attached display, so detaching it would leave no screen at all"@)
    } else {
        None
    }
}

/// Which display should become primary so that one can be detached: none
/// unless that one is primary, else the largest one that is left.
pub open spec fn promotion_choice(
    displays: Seq<DesktopDisplayView>,
    leaving: DesktopDisplayView,
) -> Option<DesktopDisplayView> {
    if leaving.is_primary {
        largest(remaining(displays, leaving))
    } else {
        None
    }
}

pub open spec fn opt_display(o: Option<&DesktopDisplay>) -> Option<DesktopDisplayView> {
    match o {
        Some(d) => Some(d.deep_view()),
        None => None,
    }
}

fn left_over<'a>(displays: &'a [DesktopDisplay], leaving: &DesktopDisplay) -> (r: Vec<
    &'a DesktopDisplay,
>)
    ensures
        r.deep_view() == remaining(displays.deep_view(), leaving.deep_view()),
{
    let ghost ds = displays.deep_view();
    let ghost p = remains_without(leaving.gdi_name@);
    let mut out: Vec<&'a DesktopDisplay> = Vec::new();
    let mut i: usize = 0;
    proof {
        lemma_filter_take_none(ds, p);
        assert(out.deep_view() =~= ds.take(0).filter(p));
    }
    while i < displays.len()
        invariant
            i <= displays.len(),
            ds == displays.deep_view(),
            p == remains_without(leaving.gdi_name@),
            out.deep_view() == ds.take(i as int).filter(p),
        decreases displays.len() - i,
    {
        proof {
            lemma_filter_take(ds, p, i as int);
        }
        let d: &'a DesktopDisplay = &displays[i];
        if d.is_attached && !same(d.gdi_name.as_str(), leaving.gdi_name.as_str())
            && !d.rect.is_empty() {
            let ghost before = out.deep_view();
            out.push(d);
            assert(out.deep_view() =~= before.push(ds[i as int]));
        }
        i += 1;
    }
    proof {
        lemma_filter_take_none(ds, p);
    }
    out
}

fn find_largest<'a>(displays: &Vec<&'a DesktopDisplay>) -> (r: Option<&'a DesktopDisplay>)
    ensures
        opt_display(r) == largest(displays.deep_view()),
{
    let ghost ds = displays.deep_view();
    if displays.len() == 0 {
        return None;
    }
    let mut best: usize = 0;
    let mut i: usize = 1;
    while i < displays.len()
        invariant
            best < i <= displays.len(),
            ds == displays.deep_view(),
            forall|j: int|
                0 <= j < i ==> (#[trigger] ds[j]).rect.area() <= ds[best as int].rect.area(),
            forall|j: int|
                best < j < i ==> (#[trigger] ds[j]).rect.area() < ds[best as int].rect.area(),
        decreases displays.len() - i,
    {
        assert(ds[i as int] == displays@[i as int].deep_view());
        assert(ds[best as int] == displays@[best as int].deep_view());
        if area_of(&displays[i].rect) >= area_of(&displays[best].rect) {
            best = i;
        }
        i += 1;
    }
    proof {
        assert(is_largest(ds, best as int));
        let c = choose|c: int| is_largest(ds, c);
        assert(c == best) by {
            if c < best {
                assert(ds[best as int].rect.area() < ds[c].rect.area());
                assert(ds[c].rect.area() <= ds[best as int].rect.area());
            } else if best < c {
                assert(ds[c].rect.area() < ds[best as int].rect.area());
                assert(ds[best as int].rect.area() <= ds[c].rect.area());
            }
        }
        assert(ds[best as int] == displays@[best as int].deep_view());
    }
    Some(displays[best])
}

/// Pick the display a swept window should move to.
///
/// Prefers the primary display, then the largest remaining one, and never
/// returns the display being vacated.
pub fn sweep_target<'a>(displays: &'a [DesktopDisplay], leaving: &DesktopDisplay) -> (r: Option<
    &'a DesktopDisplay,
>)
    ensures
        opt_display(r) == sweep_choice(displays.deep_view(), leaving.deep_view()),
{
    let left = left_over(displays, leaving);
    let ghost ls = left.deep_view();
    let mut i: usize = 0;
    while i < left.len()
        invariant
            i <= left.len(),
            ls == left.deep_view(),
            ls == remaining(displays.deep_view(), leaving.deep_view()),
            forall|j: int| 0 <= j < i ==> !primary_one()(#[trigger] ls[j]),
        decreases left.len() - i,
    {
        let d: &'a DesktopDisplay = left[i];
        assert(ls[i as int] == d.deep_view());
        if d.is_primary {
            proof {
                assert(primary_one()(ls[i as int]));
                lemma_first_index_here(ls, primary_one(), i as int);
            }
            return Some(d);
        }
        i += 1;
    }
    proof {
        lemma_first_index_none(ls, primary_one());
    }
    find_largest(&left)
}

/// Whether detaching `display` would leave the desktop usable.
pub fn detach_is_safe(displays: &[DesktopDisplay], display: &DesktopDisplay) -> (r: Result<
    (),
    String,
>)
    ensures
        crate::actions::err_text(r) == detach_problem(displays.deep_view(), display.deep_view()),
{
    if display.is_internal {
        return Err(
            "it is the built-in panel, which is kept available as the recovery display".to_owned(),
        );
    }
    if left_over(displays, display).len() == 0 {
        return Err(
            "it is the only attached display, so detaching it would leave no screen at all".to_owned(),
        );
    }
    Ok(())
}

/// Which display should become primary so `leaving` can be detached.
///
/// Windows refuses to detach the primary display, so releasing one that
/// happens to be primary means handing the role to something else first.
/// Returns `None` when `leaving` is not primary and nothing needs to change.
pub fn promotion_target<'a>(displays: &'a [DesktopDisplay], leaving: &DesktopDisplay) -> (r: Option<
    &'a DesktopDisplay,
>)
    ensures
        opt_display(r) == promotion_choice(displays.deep_view(), leaving.deep_view()),
{
    if !leaving.is_primary {
        return None;
    }
    let left = left_over(displays, leaving);
    find_largest(&left)
}

// ---------------------------------------------------------------------------
// What the choices promise
// ---------------------------------------------------------------------------

proof fn lemma_a_largest_exists(displays: Seq<DesktopDisplayView>)
    requires
        displays.len() > 0,
    ensures
        exists|i: int| is_largest(displays, i),
    decreases displays.len(),
{
    let last = displays.len() - 1;
    if displays.len() == 1 {
        assert(is_largest(displays, 0));
    } else {
        let front = displays.drop_last();
        lemma_a_largest_exists(front);
        let i = choose|i: int| is_largest(front, i);
        if displays[last].rect.area() >= front[i].rect.area() {
            assert forall|j: int| 0 <= j < displays.len() implies (
            #[trigger] displays[j]).rect.area() <= displays[last].rect.area() by {
                if j < last {
                    assert(front[j] == displays[j]);
                }
            }
            assert(is_largest(displays, last));
        } else {
            assert forall|j: int| 0 <= j < displays.len() implies (
            #[trigger] displays[j]).rect.area() <= displays[i].rect.area() by {
                if j < last {
                    assert(front[j] == displays[j]);
                }
            }
            assert forall|j: int| i < j < displays.len() implies (
            #[trigger] displays[j]).rect.area() < displays[i].rect.area() by {
                if j < last {
                    assert(front[j] == displays[j]);
                }
            }
            assert(is_largest(displays, i));
        }
    }
}

/// Windows are never swept onto the display that is leaving, nor onto one that
/// is detached or empty, and they have somewhere to go whenever another usable
/// display is left.
pub proof fn law_windows_land_on_another_display(
    displays: Seq<DesktopDisplayView>,
    leaving: DesktopDisplayView,
)
    ensures
        sweep_choice(displays, leaving) matches Some(d) ==> {
            &&& displays.contains(d)
            &&& d.gdi_name != leaving.gdi_name
            &&& d.is_attached
            &&& !d.rect.empty()
        },
        sweep_choice(displays, leaving) is None <==> remaining(displays, leaving).len() == 0,
{
    let left = remaining(displays, leaving);
    let p = remains_without(leaving.gdi_name);
    lemma_filter_members(displays, p);
    lemma_first_index(left, primary_one());
    if left.len() > 0 {
        lemma_a_largest_exists(left);
        let i = choose|i: int| is_largest(left, i);
        assert(p(left[i]));
        match first_index(left, primary_one()) {
            Some(k) => {
                assert(p(left[k]));
            },
            None => {},
        }
    }
}

/// A display is only ever detached when it is not the built-in panel and
/// another usable display is left; if it is the primary one, there is then one
/// to promote in its place.
pub proof fn law_a_detach_leaves_a_screen(
    displays: Seq<DesktopDisplayView>,
    display: DesktopDisplayView,
)
    requires
        detach_problem(displays, display) is None,
    ensures
        !display.is_internal,
        exists|i: int|
            0 <= i < displays.len() && (#[trigger] displays[i]).is_attached && displays[i].gdi_name
                != display.gdi_name && !displays[i].rect.empty(),
        display.is_primary ==> (promotion_choice(displays, display) matches Some(d)
            && displays.contains(d) && d.gdi_name != display.gdi_name && d.is_attached),
{
    let left = remaining(displays, display);
    let p = remains_without(display.gdi_name);
    lemma_filter_members(displays, p);
    assert(p(left[0]));
    assert(displays.contains(left[0]));
    let k = choose|k: int| 0 <= k < displays.len() && displays[k] == left[0];
    assert(displays[k].is_attached);
    lemma_a_largest_exists(left);
    let i = choose|i: int| is_largest(left, i);
    assert(p(left[i]));
}

/// The same character of a path: a letter in either case, or either slash.
pub open spec fn same_in_paths(a: char, b: char) -> bool {
    same_letter(a, b) || ((a == '/' || a == '\\') && (b == '/' || b == '\\'))
}

/// A display has an id exactly where one of the two, without the white space
/// around it, begins with the other, character by character; nothing is the
/// display of an empty id.
pub proof fn law_a_display_is_known_by_the_beginning_of_its_path(
    d: DesktopDisplayView,
    id: Seq<char>,
)
    ensures
        d.matches_id(id) <==> {
            let p = trimmed(d.device_path);
            let q = trimmed(id);
            &&& p.len() > 0
            &&& q.len() > 0
            &&& forall|i: int| 0 <= i < p.len() && i < q.len() ==> same_in_paths(
                #[trigger] p[i],
                q[i],
            )
        },
{
    let p = trimmed(d.device_path);
    let q = trimmed(id);
    let a = normal_path(d.device_path);
    let b = normal_path(id);
    reveal_strlit("\\");
    assert("\\"@ =~= seq!['\\']);
    lemma_replaced_by_one(upper_all(p), '/', '\\');
    lemma_replaced_by_one(upper_all(q), '/', '\\');
    assert(a.len() == p.len() && b.len() == q.len());
    assert forall|i: int| 0 <= i < p.len() && i < q.len() implies (a[i] == b[i] <==> same_in_paths(
        #[trigger] p[i],
        q[i],
    )) by {
        assert(upper_all(p)[i] == ascii_upper(p[i]));
        assert(upper_all(q)[i] == ascii_upper(q[i]));
        lemma_upper_letter(p[i], q[i]);
    }
    if b.is_prefix_of(a) {
        assert forall|i: int| 0 <= i < p.len() && i < q.len() implies same_in_paths(
            #[trigger] p[i],
            q[i],
        ) by {
            assert(a.subrange(0, b.len() as int)[i] == b[i]);
        }
    }
    if a.is_prefix_of(b) {
        assert forall|i: int| 0 <= i < p.len() && i < q.len() implies same_in_paths(
            #[trigger] p[i],
            q[i],
        ) by {
            assert(b.subrange(0, a.len() as int)[i] == a[i]);
        }
    }
    if forall|i: int| 0 <= i < p.len() && i < q.len() ==> same_in_paths(#[trigger] p[i], q[i]) {
        if q.len() <= p.len() {
            assert forall|i: int| 0 <= i < b.len() implies b[i] == a[i] by {
                assert(same_in_paths(p[i], q[i]));
            }
            assert(b =~= a.subrange(0, b.len() as int));
        } else {
            assert forall|i: int| 0 <= i < a.len() implies b[i] == a[i] by {
                assert(same_in_paths(p[i], q[i]));
            }
            assert(a =~= b.subrange(0, a.len() as int));
        }
    }
}

/// Another display can take over: it is attached, is not the one that leaves,
/// and has an area.
pub open spec fn can_take_over(d: DesktopDisplayView, leaving: DesktopDisplayView) -> bool {
    &&& d.is_attached
    &&& d.gdi_name != leaving.gdi_name
    &&& d.rect.left < d.rect.right
    &&& d.rect.top < d.rect.bottom
}

/// Windows go to the primary display where that can take over; else to one as
/// large as any that can; nowhere where none can.
pub proof fn law_windows_go_to_the_primary_display_or_the_largest(
    displays: Seq<DesktopDisplayView>,
    leaving: DesktopDisplayView,
)
    ensures
        match sweep_choice(displays, leaving) {
            Some(d) => {
                &&& displays.contains(d)
                &&& can_take_over(d, leaving)
                &&& (exists|i: int|
                    0 <= i < displays.len() && can_take_over(#[trigger] displays[i], leaving)
                        && displays[i].is_primary) ==> d.is_primary
                &&& !d.is_primary ==> forall|i: int|
                    0 <= i < displays.len() && can_take_over(#[trigger] displays[i], leaving)
                        ==> (displays[i].rect.right - displays[i].rect.left) * (
                    displays[i].rect.bottom - displays[i].rect.top) <= (d.rect.right - d.rect.left)
                        * (d.rect.bottom - d.rect.top)
            },
            None => forall|i: int|
                0 <= i < displays.len() ==> !can_take_over(#[trigger] displays[i], leaving),
        },
{
    let left = remaining(displays, leaving);
    let p = remains_without(leaving.gdi_name);
    lemma_filter_members(displays, p);
    lemma_first_index(left, primary_one());
    law_windows_land_on_another_display(displays, leaving);
    assert forall|i: int| 0 <= i < displays.len() implies p(#[trigger] displays[i])
        == can_take_over(displays[i], leaving) by {}
    if left.len() > 0 {
        lemma_a_largest_exists(left);
        let k = choose|k: int| is_largest(left, k);
        assert(p(left[k]));
        let d = sweep_choice(displays, leaving)->0;
        if exists|i: int|
            0 <= i < displays.len() && can_take_over(#[trigger] displays[i], leaving)
                && displays[i].is_primary {
            let i = choose|i: int|
                0 <= i < displays.len() && can_take_over(#[trigger] displays[i], leaving)
                    && displays[i].is_primary;
            assert(left.contains(displays[i]));
            let n = choose|n: int| 0 <= n < left.len() && left[n] == displays[i];
            assert(primary_one()(left[n]));
        }
        if !d.is_primary {
            assert forall|i: int|
                0 <= i < displays.len() && can_take_over(
                    #[trigger] displays[i],
                    leaving,
                ) implies (displays[i].rect.right - displays[i].rect.left) * (
            displays[i].rect.bottom - displays[i].rect.top) <= (d.rect.right - d.rect.left) * (
            d.rect.bottom - d.rect.top) by {
                assert(left.contains(displays[i]));
                let n = choose|n: int| 0 <= n < left.len() && left[n] == displays[i];
                assert(left[n].rect.area() <= left[k].rect.area());
            }
        }
    } else {
        assert forall|i: int| 0 <= i < displays.len() implies !can_take_over(
            #[trigger] displays[i],
            leaving,
        ) by {
            if p(displays[i]) {
                assert(left.contains(displays[i]));
            }
        }
    }
}

/// The primary role is handed on only by the display that has it, to one as
/// large as any that can take over, and there is one wherever any can.
pub proof fn law_the_primary_role_goes_to_the_largest(
    displays: Seq<DesktopDisplayView>,
    leaving: DesktopDisplayView,
)
    ensures
        !leaving.is_primary ==> promotion_choice(displays, leaving) is None,
        leaving.is_primary ==> match promotion_choice(displays, leaving) {
            Some(d) => displays.contains(d) && can_take_over(d, leaving) && forall|i: int|
                0 <= i < displays.len() && can_take_over(#[trigger] displays[i], leaving) ==> (
                displays[i].rect.right - displays[i].rect.left) * (displays[i].rect.bottom
                    - displays[i].rect.top) <= (d.rect.right - d.rect.left) * (d.rect.bottom
                    - d.rect.top),
            None => forall|i: int|
                0 <= i < displays.len() ==> !can_take_over(#[trigger] displays[i], leaving),
        },
{
    let left = remaining(displays, leaving);
    let p = remains_without(leaving.gdi_name);
    lemma_filter_members(displays, p);
    assert forall|i: int| 0 <= i < displays.len() implies p(#[trigger] displays[i])
        == can_take_over(displays[i], leaving) by {}
    if left.len() > 0 {
        lemma_a_largest_exists(left);
        let k = choose|k: int| is_largest(left, k);
        assert(p(left[k]));
        let d = left[k];
        assert forall|i: int|
            0 <= i < displays.len() && can_take_over(#[trigger] displays[i], leaving) implies (
        displays[i].rect.right - displays[i].rect.left) * (displays[i].rect.bottom
            - displays[i].rect.top) <= (d.rect.right - d.rect.left) * (d.rect.bottom
            - d.rect.top) by {
            assert(left.contains(displays[i]));
            let n = choose|n: int| 0 <= n < left.len() && left[n] == displays[i];
            assert(left[n].rect.area() <= left[k].rect.area());
        }
    } else {
        assert forall|i: int| 0 <= i < displays.len() implies !can_take_over(
            #[trigger] displays[i],
            leaving,
        ) by {
            if p(displays[i]) {
                assert(left.contains(displays[i]));
            }
        }
    }
}

/// A display may be detached exactly where it is not the built-in panel and
/// another can take over.
pub proof fn law_a_display_may_leave_when_another_can_take_over(
    displays: Seq<DesktopDisplayView>,
    display: DesktopDisplayView,
)
    ensures
        detach_problem(displays, display) is None <==> !display.is_internal && exists|i: int|
            0 <= i < displays.len() && can_take_over(#[trigger] displays[i], display),
{
    let left = remaining(displays, display);
    let p = remains_without(display.gdi_name);
    lemma_filter_members(displays, p);
    assert forall|i: int| 0 <= i < displays.len() implies p(#[trigger] displays[i])
        == can_take_over(displays[i], display) by {}
    if left.len() > 0 {
        assert(p(left[0]) && displays.contains(left[0]));
        let i = choose|i: int| 0 <= i < displays.len() && displays[i] == left[0];
        assert(can_take_over(displays[i], display));
    }
    if exists|i: int| 0 <= i < displays.len() && can_take_over(#[trigger] displays[i], display) {
        let i = choose|i: int|
            0 <= i < displays.len() && can_take_over(#[trigger] displays[i], display);
        assert(left.contains(displays[i]));
    }
}

} // verus!

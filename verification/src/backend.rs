//! The narrow seam between domain logic and the programs and interfaces that
//! reach a monitor.

use vstd::prelude::*;

use crate::digits::{signed_dec, signed_decimal};
use crate::proc::{seconds, seconds_text, ProcError, ProcErrorView};
use crate::text::{
    cat2, cat3, cat4, cat5, cat6, copy_opt, has_text, lemma_has_first_and_third,
    lemma_has_text_between, opt_text,
};
use crate::types::{
    opt_str, DetectedMonitor, DetectedMonitorView, InputCapabilities, InputCapabilitiesView,
    InputCode, InputReading, InputReadingView, MonitorHandle, MonitorHandleView, WriteOutcome,
    WriteOutcomeView,
};

verus! {

#[derive(Debug, PartialEq, Eq)]
pub enum BackendError {
    ToolNotFound { tool: String, hint: String },
    ToolNotReady { tool: String, detail: String },
    PermissionDenied { detail: String },
    Timeout { command: String, after_ms: u64 },
    CommandFailed { command: String, status: Option<i32>, stderr: String },
    /// The tool ran, but printed something the adapter does not understand.
    /// This is deliberately fatal: guessing at changed output is how the right
    /// value is written to the wrong monitor.
    UnexpectedOutput { command: String, detail: String, raw: String },
    MonitorNotFound { detail: String },
    Unsupported { detail: String },
    Io(String),
}

pub enum BackendErrorView {
    ToolNotFound { tool: Seq<char>, hint: Seq<char> },
    ToolNotReady { tool: Seq<char>, detail: Seq<char> },
    PermissionDenied { detail: Seq<char> },
    Timeout { command: Seq<char>, after_ms: u64 },
    CommandFailed { command: Seq<char>, status: Option<i32>, stderr: Seq<char> },
    UnexpectedOutput { command: Seq<char>, detail: Seq<char>, raw: Seq<char> },
    MonitorNotFound { detail: Seq<char> },
    Unsupported { detail: Seq<char> },
    Io(Seq<char>),
}

impl DeepView for BackendError {
    type V = BackendErrorView;

    open spec fn deep_view(&self) -> BackendErrorView {
        match self {
            BackendError::ToolNotFound { tool, hint } => BackendErrorView::ToolNotFound {
                tool: tool@,
                hint: hint@,
            },
            BackendError::ToolNotReady { tool, detail } => BackendErrorView::ToolNotReady {
                tool: tool@,
                detail: detail@,
            },
            BackendError::PermissionDenied { detail } => BackendErrorView::PermissionDenied {
                detail: detail@,
            },
            BackendError::Timeout { command, after_ms } => BackendErrorView::Timeout {
                command: command@,
                after_ms: *after_ms,
            },
            BackendError::CommandFailed { command, status, stderr } => {
                BackendErrorView::CommandFailed {
                    command: command@,
                    status: *status,
                    stderr: stderr@,
                }
            },
            BackendError::UnexpectedOutput { command, detail, raw } => {
                BackendErrorView::UnexpectedOutput { command: command@, detail: detail@, raw: raw@ }
            },
            BackendError::MonitorNotFound { detail } => BackendErrorView::MonitorNotFound {
                detail: detail@,
            },
            BackendError::Unsupported { detail } => BackendErrorView::Unsupported {
                detail: detail@,
            },
            BackendError::Io(s) => BackendErrorView::Io(s@),
        }
    }
}

impl Clone for BackendError {
    fn clone(&self) -> (r: Self)
        ensures
            r == *self,
    {
        match self {
            BackendError::ToolNotFound { tool, hint } => BackendError::ToolNotFound {
                tool: tool.clone(),
                hint: hint.clone(),
            },
            BackendError::ToolNotReady { tool, detail } => BackendError::ToolNotReady {
                tool: tool.clone(),
                detail: detail.clone(),
            },
            BackendError::PermissionDenied { detail } => BackendError::PermissionDenied {
                detail: detail.clone(),
            },
            BackendError::Timeout { command, after_ms } => BackendError::Timeout {
                command: command.clone(),
                after_ms: *after_ms,
            },
            BackendError::CommandFailed { command, status, stderr } => {
                BackendError::CommandFailed {
                    command: command.clone(),
                    status: *status,
                    stderr: stderr.clone(),
                }
            },
            BackendError::UnexpectedOutput { command, detail, raw } => {
                BackendError::UnexpectedOutput {
                    command: command.clone(),
                    detail: detail.clone(),
                    raw: raw.clone(),
                }
            },
            BackendError::MonitorNotFound { detail } => BackendError::MonitorNotFound {
                detail: detail.clone(),
            },
            BackendError::Unsupported { detail } => BackendError::Unsupported {
                detail: detail.clone(),
            },
            BackendError::Io(s) => BackendError::Io(s.clone()),
        }
    }
}

/// An exit status as messages show it.
pub open spec fn status_text(status: Option<i32>) -> Seq<char> {
    match status {
        Some(code) => "Some("@ + signed_decimal(code as int) + ")"@,
        None => "None"@,
    }
}

fn show_status(status: Option<i32>) -> (r: String)
    ensures
        r@ == status_text(status),
{
    match status {
        Some(code) => cat3("Some(", signed_dec(code).as_str(), ")"),
        None => "None".to_owned(),
    }
}

impl BackendErrorView {
    pub open spec fn message(self) -> Seq<char> {
        match self {
            BackendErrorView::ToolNotFound { tool, hint } => tool + " was not found. "@ + hint,
            BackendErrorView::ToolNotReady { tool, detail } => tool
                + " is installed but not usable right now: "@ + detail,
            BackendErrorView::PermissionDenied { detail } => "permission denied: "@ + detail,
            BackendErrorView::Timeout { command, after_ms } => "`"@ + command
                + "` timed out after "@ + seconds_text(after_ms as nat) + "s"@,
            BackendErrorView::CommandFailed { command, status, stderr } => "`"@ + command
                + "` failed (exit "@ + status_text(status) + "): "@ + stderr,
            BackendErrorView::UnexpectedOutput { command, detail, raw } => {
                "unexpected output from `"@ + command + "`: "@ + detail
            },
            BackendErrorView::MonitorNotFound { detail } => "no monitor matched: "@ + detail,
            BackendErrorView::Unsupported { detail } => detail,
            BackendErrorView::Io(s) => s,
        }
    }

    pub open spec fn is_transient(self) -> bool {
        self is Timeout || self is CommandFailed
    }

    pub open spec fn raw_evidence(self) -> Option<Seq<char>> {
        match self {
            BackendErrorView::UnexpectedOutput { raw, .. } => Some(raw),
            _ => None,
        }
    }
}

/// The error of a backend whose program could not be run.
pub open spec fn from_proc_view(e: ProcErrorView) -> BackendErrorView {
    match e {
        ProcErrorView::NotFound(p) => BackendErrorView::ToolNotFound {
            tool: p,
            hint: "Check the install, or pass an explicit path in config.toml."@,
        },
        ProcErrorView::Timeout { program, timeout_ms } => BackendErrorView::Timeout {
            command: program,
            after_ms: timeout_ms,
        },
        other => BackendErrorView::Io(other.message()),
    }
}

impl BackendError {
    pub fn to_string(&self) -> (r: String)
        ensures
            r@ == self.deep_view().message(),
    {
        match self {
            BackendError::ToolNotFound { tool, hint } => cat3(
                tool.as_str(),
                " was not found. ",
                hint.as_str(),
            ),
            BackendError::ToolNotReady { tool, detail } => cat3(
                tool.as_str(),
                " is installed but not usable right now: ",
                detail.as_str(),
            ),
            BackendError::PermissionDenied { detail } => cat2(
                "permission denied: ",
                detail.as_str(),
            ),
            BackendError::Timeout { command, after_ms } => cat5(
                "`",
                command.as_str(),
                "` timed out after ",
                seconds(*after_ms).as_str(),
                "s",
            ),
            BackendError::CommandFailed { command, status, stderr } => cat6(
                "`",
                command.as_str(),
                "` failed (exit ",
                show_status(*status).as_str(),
                "): ",
                stderr.as_str(),
            ),
            BackendError::UnexpectedOutput { command, detail, raw: _ } => cat4(
                "unexpected output from `",
                command.as_str(),
                "`: ",
                detail.as_str(),
            ),
            BackendError::MonitorNotFound { detail } => cat2(
                "no monitor matched: ",
                detail.as_str(),
            ),
            BackendError::Unsupported { detail } => detail.clone(),
            BackendError::Io(s) => s.clone(),
        }
    }

    /// Whether retrying could plausibly help.
    ///
    /// Only ever consulted on read paths. An input-switch write is never
    /// retried on this basis: the first write may already have been accepted,
    /// and repeating it during re-enumeration compounds the disconnect.
    pub fn is_transient(&self) -> (r: bool)
        ensures
            r == self.deep_view().is_transient(),
    {
        match self {
            BackendError::Timeout { .. } => true,
            BackendError::CommandFailed { .. } => true,
            _ => false,
        }
    }

    pub fn raw_evidence(&self) -> (r: Option<&str>)
        ensures
            opt_str(r) == self.deep_view().raw_evidence(),
    {
        match self {
            BackendError::UnexpectedOutput { command: _, detail: _, raw } => Some(raw.as_str()),
            _ => None,
        }
    }

    /// The error of a backend whose program could not be run.
    pub fn from_proc(e: &ProcError) -> (r: BackendError)
        ensures
            r.deep_view() == from_proc_view(e.deep_view()),
    {
        match e {
            ProcError::NotFound(p) => BackendError::ToolNotFound {
                tool: p.clone(),
                hint: "Check the install, or pass an explicit path in config.toml.".to_owned(),
            },
            ProcError::Timeout { program, timeout_ms } => BackendError::Timeout {
                command: program.clone(),
                after_ms: *timeout_ms,
            },
            other => BackendError::Io(other.to_string()),
        }
    }
}

// ---------------------------------------------------------------------------
// Health
// ---------------------------------------------------------------------------

#[derive(Debug, Clone, Copy, PartialEq, Eq, PartialOrd, Ord, Structural)]
pub enum Severity {
    Info,
    Warning,
    /// Stops the backend from being usable at all.
    Blocker,
}

pub open spec fn severity_text(s: Severity) -> Seq<char> {
    match s {
        Severity::Info => "ok"@,
        Severity::Warning => "warn"@,
        Severity::Blocker => "BLOCKER"@,
    }
}

impl Severity {
    pub fn to_string(&self) -> (r: String)
        ensures
            r@ == severity_text(*self),
    {
        match self {
            Severity::Info => "ok".to_owned(),
            Severity::Warning => "warn".to_owned(),
            Severity::Blocker => "BLOCKER".to_owned(),
        }
    }
}

#[derive(Debug, PartialEq, Eq)]
pub struct HealthFinding {
    pub severity: Severity,
    pub message: String,
    /// What the user should do about it, when there is something to do.
    pub remedy: Option<String>,
}

pub struct HealthFindingView {
    pub severity: Severity,
    pub message: Seq<char>,
    pub remedy: Option<Seq<char>>,
}

impl DeepView for HealthFinding {
    type V = HealthFindingView;

    open spec fn deep_view(&self) -> HealthFindingView {
        HealthFindingView {
            severity: self.severity,
            message: self.message@,
            remedy: opt_text(self.remedy),
        }
    }
}

impl Clone for HealthFinding {
    fn clone(&self) -> (r: Self)
        ensures
            r.deep_view() == self.deep_view(),
    {
        HealthFinding {
            severity: self.severity,
            message: self.message.clone(),
            remedy: copy_opt(&self.remedy),
        }
    }
}

impl HealthFindingView {
    pub open spec fn info(message: Seq<char>) -> Self {
        HealthFindingView { severity: Severity::Info, message, remedy: None }
    }

    pub open spec fn warn(message: Seq<char>, remedy: Seq<char>) -> Self {
        HealthFindingView { severity: Severity::Warning, message, remedy: Some(remedy) }
    }

    pub open spec fn blocker(message: Seq<char>, remedy: Seq<char>) -> Self {
        HealthFindingView { severity: Severity::Blocker, message, remedy: Some(remedy) }
    }
}

impl HealthFinding {
    pub fn info(message: &str) -> (r: Self)
        ensures
            r.deep_view() == HealthFindingView::info(message@),
    {
        HealthFinding { severity: Severity::Info, message: message.to_owned(), remedy: None }
    }

    pub fn warn(message: &str, remedy: &str) -> (r: Self)
        ensures
            r.deep_view() == HealthFindingView::warn(message@, remedy@),
    {
        HealthFinding {
            severity: Severity::Warning,
            message: message.to_owned(),
            remedy: Some(remedy.to_owned()),
        }
    }

    pub fn blocker(message: &str, remedy: &str) -> (r: Self)
        ensures
            r.deep_view() == HealthFindingView::blocker(message@, remedy@),
    {
        HealthFinding {
            severity: Severity::Blocker,
            message: message.to_owned(),
            remedy: Some(remedy.to_owned()),
        }
    }
}

/// Read-only report on whether a backend can do anything at all.
#[derive(Debug, PartialEq, Eq)]
pub struct BackendHealth {
    pub backend: String,
    pub tool_path: Option<String>,
    pub tool_version: Option<String>,
    pub findings: Vec<HealthFinding>,
}

pub struct BackendHealthView {
    pub backend: Seq<char>,
    pub tool_path: Option<Seq<char>>,
    pub tool_version: Option<Seq<char>>,
    pub findings: Seq<HealthFindingView>,
}

impl DeepView for BackendHealth {
    type V = BackendHealthView;

    open spec fn deep_view(&self) -> BackendHealthView {
        BackendHealthView {
            backend: self.backend@,
            tool_path: opt_text(self.tool_path),
            tool_version: opt_text(self.tool_version),
            findings: self.findings.deep_view(),
        }
    }
}

impl BackendHealth {
    /// Usable means that no finding is a blocker.
    pub fn is_usable(&self) -> (r: bool)
        ensures
            r <==> forall|i: int|
                0 <= i < self.deep_view().findings.len() ==> #[trigger] self.deep_view().findings[i].severity
                    != Severity::Blocker,
    {
        let mut i: usize = 0;
        while i < self.findings.len()
            invariant
                i <= self.findings.len(),
                forall|j: int|
                    0 <= j < i ==> #[trigger] self.deep_view().findings[j].severity
                        != Severity::Blocker,
            decreases self.findings.len() - i,
        {
            if self.findings[i].severity == Severity::Blocker {
                assert(self.deep_view().findings[i as int].severity == Severity::Blocker);
                return false;
            }
            i += 1;
        }
        true
    }
}

// ---------------------------------------------------------------------------
// The seam
// ---------------------------------------------------------------------------

/// Nothing was written between `before` and `after` but `value`, to the
/// connection `id`, any number of times.
pub open spec fn wrote_only(
    before: Seq<(Seq<char>, InputCode)>,
    after: Seq<(Seq<char>, InputCode)>,
    id: Seq<char>,
    value: InputCode,
) -> bool {
    &&& before.is_prefix_of(after)
    &&& forall|i: int| before.len() <= i < after.len() ==> #[trigger] after[i] == (id, value)
}

pub open spec fn monitors_result(r: Result<Vec<DetectedMonitor>, BackendError>) -> Result<
    Seq<DetectedMonitorView>,
    BackendErrorView,
> {
    match r {
        Ok(v) => Ok(v.deep_view()),
        Err(e) => Err(e.deep_view()),
    }
}

pub open spec fn capabilities_result(r: Result<InputCapabilities, BackendError>) -> Result<
    InputCapabilitiesView,
    BackendErrorView,
> {
    match r {
        Ok(c) => Ok(c.deep_view()),
        Err(e) => Err(e.deep_view()),
    }
}

pub open spec fn reading_answer(answer: Result<InputReading, BackendError>) -> Result<
    InputReadingView,
    BackendErrorView,
> {
    match answer {
        Ok(r) => Ok(r.deep_view()),
        Err(e) => Err(e.deep_view()),
    }
}

pub open spec fn write_answer(answer: Result<WriteOutcome, BackendError>) -> Result<
    WriteOutcomeView,
    BackendErrorView,
> {
    match answer {
        Ok(o) => Ok(o.deep_view()),
        Err(e) => Err(e.deep_view()),
    }
}

/// One thing asked of a backend, and what it answered.
pub enum Exchange {
    Checked(BackendHealthView),
    Discovered(Result<Seq<DetectedMonitorView>, BackendErrorView>),
    Asked(MonitorHandleView, Result<InputCapabilitiesView, BackendErrorView>),
    Read(MonitorHandleView, Result<InputReadingView, BackendErrorView>),
    Wrote(MonitorHandleView, InputCode, Result<WriteOutcomeView, BackendErrorView>),
}

/// A source of monitor information and input-source control.
///
/// Implementations must never fall back to a different monitor than the one
/// asked for. If a handle cannot be resolved exactly, they return
/// [`BackendError::MonitorNotFound`].
pub trait MonitorBackend {
    /// Every write this backend has sent so far, oldest first: the connection
    /// it went to and the code.
    spec fn sent(&self) -> Seq<(Seq<char>, InputCode)>;

    /// Everything this backend was asked so far, and what it answered, oldest
    /// first.
    spec fn heard(&self) -> Seq<Exchange>;

    fn name(&self) -> &str;

    /// Read-only checks: is the tool present, the right version, permitted to
    /// talk to the hardware. Writes no VCP value.
    fn health(&mut self) -> (r: BackendHealth)
        ensures
            final(self).sent() == old(self).sent(),
            final(self).heard() == old(self).heard().push(Exchange::Checked(r.deep_view())),
    ;

    /// Enumerate displays. Writes no VCP value.
    fn discover(&mut self) -> (r: Result<Vec<DetectedMonitor>, BackendError>)
        ensures
            final(self).sent() == old(self).sent(),
            final(self).heard() == old(self).heard().push(Exchange::Discovered(monitors_result(r))),
    ;

    /// What the monitor claims about feature 0x60. Writes nothing.
    fn input_capabilities(&mut self, monitor: &MonitorHandle) -> (r: Result<
        InputCapabilities,
        BackendError,
    >)
        ensures
            final(self).sent() == old(self).sent(),
            final(self).heard() == old(self).heard().push(
                Exchange::Asked(monitor.deep_view(), capabilities_result(r)),
            ),
    ;

    /// Current value of feature 0x60. Writes nothing.
    fn read_input(&mut self, monitor: &MonitorHandle) -> (r: Result<InputReading, BackendError>)
        ensures
            final(self).sent() == old(self).sent(),
            final(self).heard() == old(self).heard().push(
                Exchange::Read(monitor.deep_view(), reading_answer(r)),
            ),
    ;

    /// Write feature 0x60. The only method that changes anything, and only by
    /// writing this value to this monitor. A write that is known not to have
    /// arrived may be repeated.
    fn set_input(&mut self, monitor: &MonitorHandle, value: InputCode) -> (r: Result<
        WriteOutcome,
        BackendError,
    >)
        ensures
            wrote_only(old(self).sent(), final(self).sent(), monitor.backend_id@, value),
            final(self).heard() == old(self).heard().push(
                Exchange::Wrote(monitor.deep_view(), value, write_answer(r)),
            ),
    ;
}

/// An error is told with what is known of it: the tool or command it is about
/// and the detail that came with it.
pub proof fn law_an_error_tells_its_detail(e: BackendErrorView)
    ensures
        e matches BackendErrorView::ToolNotFound { tool, hint } ==> has_text(e.message(), tool)
            && has_text(e.message(), hint),
        e matches BackendErrorView::ToolNotReady { tool, detail } ==> has_text(e.message(), tool)
            && has_text(e.message(), detail),
        e matches BackendErrorView::PermissionDenied { detail } ==> has_text(e.message(), detail),
        e matches BackendErrorView::Timeout { command, after_ms } ==> has_text(e.message(), command)
            && has_text(e.message(), seconds_text(after_ms as nat)),
        e matches BackendErrorView::CommandFailed { command, status, stderr } ==> has_text(
            e.message(),
            command,
        ) && has_text(e.message(), stderr),
        e matches BackendErrorView::UnexpectedOutput { command, detail, raw } ==> has_text(
            e.message(),
            command,
        ) && has_text(e.message(), detail) && e.raw_evidence() == Some(raw),
        e matches BackendErrorView::MonitorNotFound { detail } ==> has_text(e.message(), detail),
        e matches BackendErrorView::Unsupported { detail } ==> e.message() == detail,
        e.raw_evidence() is Some ==> e is UnexpectedOutput,
        e.is_transient() <==> e is Timeout || e is CommandFailed,
{
    let none = Seq::<char>::empty();
    match e {
        BackendErrorView::ToolNotFound { tool, hint } => {
            let gap = " was not found. "@;
            lemma_has_first_and_third(none + tool, gap, hint, none);
            assert(none + tool =~= tool);
            assert(tool + gap + hint + none =~= e.message());
        },
        BackendErrorView::ToolNotReady { tool, detail } => {
            let gap = " is installed but not usable right now: "@;
            lemma_has_first_and_third(tool, gap, detail, none);
            assert(tool + gap + detail + none =~= e.message());
        },
        BackendErrorView::PermissionDenied { detail } => {
            lemma_has_text_between("permission denied: "@, detail, none);
        },
        BackendErrorView::Timeout { command, after_ms } => {
            let t = seconds_text(after_ms as nat);
            lemma_has_text_between("`"@, command, "` timed out after "@ + t + "s"@);
            assert("`"@ + command + ("` timed out after "@ + t + "s"@) =~= e.message());
            lemma_has_text_between("`"@ + command + "` timed out after "@, t, "s"@);
        },
        BackendErrorView::CommandFailed { command, status, stderr } => {
            let gap = "` failed (exit "@ + status_text(status) + "): "@;
            lemma_has_text_between("`"@, command, gap + stderr);
            assert("`"@ + command + (gap + stderr) =~= e.message());
            lemma_has_text_between("`"@ + command + gap, stderr, none);
            assert("`"@ + command + gap + stderr =~= e.message());
        },
        BackendErrorView::UnexpectedOutput { command, detail, raw } => {
            lemma_has_text_between("unexpected output from `"@, command, "`: "@ + detail);
            assert("unexpected output from `"@ + command + ("`: "@ + detail) =~= e.message());
            lemma_has_text_between("unexpected output from `"@ + command + "`: "@, detail, none);
        },
        BackendErrorView::MonitorNotFound { detail } => {
            lemma_has_text_between("no monitor matched: "@, detail, none);
        },
        _ => {},
    }
}

/// A program that is missing is a missing tool, one that took too long timed
/// out after as long as it was given, and whatever else went wrong is told.
pub proof fn law_a_command_fails_as_it_failed(e: ProcErrorView)
    ensures
        e matches ProcErrorView::NotFound(p) <==> (from_proc_view(
            e,
        ) matches BackendErrorView::ToolNotFound { tool, hint }),
        e matches ProcErrorView::NotFound(p) ==> (from_proc_view(
            e,
        ) matches BackendErrorView::ToolNotFound { tool, hint } && tool == p),
        e matches ProcErrorView::Timeout { program, timeout_ms } ==> from_proc_view(e) == (
        BackendErrorView::Timeout { command: program, after_ms: timeout_ms }),
        e is Launch || e is Output ==> from_proc_view(e) is Io,
{
}

} // verus!

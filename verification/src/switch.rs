//! Setting a monitor's input, and reporting honestly what happened.
//!
//! The unit of work is **one monitor, one input code**. That is the only
//! thing the hardware offers, and it is all this layer believes in. Grouping
//! several of them into "the desk setup" is a person's idea and belongs in an
//! action, not here.
//!
//! Two rules shape the rest:
//!
//! 1. A set is absolute, never a step or a cycle. Issuing it twice is
//!    harmless, so a repeated hotkey cannot walk a monitor through its inputs.
//! 2. A zero exit status is not a switched monitor. The report distinguishes
//!    "stored by the monitor", "issued but unconfirmed", and "failed", and
//!    never rounds the middle one up.

use vstd::prelude::*;

use crate::backend::{
    reading_answer, write_answer, wrote_only, BackendError, BackendErrorView, Exchange,
    MonitorBackend,
};
use crate::clock::{Clock, Wait};
use crate::config::{
    is_asked_for, law_a_name_finds_the_first_that_answers, law_an_input_is_found_by_its_code, named,
    Config, ConfigView, MonitorConfig, MonitorConfigView,
};
use crate::eventlog::{capped, fields_view, now_unix_ms, took, EventLog};
use crate::inventory::{
    bind, bindings_of, binds_key, law_a_binding_names_exactly_one_display,
    law_every_monitor_is_accounted_for, problems_of, resolution, BindingProblem,
    BindingProblemView, BindingView,
};
use crate::seqs::{
    first_index, lemma_first_index, lemma_first_index_here, lemma_first_index_none,
};
use crate::text::{cat2, cat3, cat4, copy_opt, join, joined, opt_text, same, texts};
use crate::types::{
    code_text, DetectedMonitor, DetectedMonitorView, InputCode, InputReading, InputReadingView,
    MonitorHandle, MonitorHandleView, WriteOutcome, WriteOutcomeView,
};

verus! {

// ---------------------------------------------------------------------------
// Planning
// ---------------------------------------------------------------------------

#[derive(Debug, PartialEq, Eq)]
pub enum PlanError {
    NoMonitorsConfigured,
    UnknownMonitor { requested: String, known: Vec<String> },
    Binding { problem: BindingProblem },
}

pub enum PlanErrorView {
    NoMonitorsConfigured,
    UnknownMonitor { requested: Seq<char>, known: Seq<Seq<char>> },
    Binding { problem: BindingProblemView },
}

impl DeepView for PlanError {
    type V = PlanErrorView;

    open spec fn deep_view(&self) -> PlanErrorView {
        match self {
            PlanError::NoMonitorsConfigured => PlanErrorView::NoMonitorsConfigured,
            PlanError::UnknownMonitor { requested, known } => PlanErrorView::UnknownMonitor {
                requested: requested@,
                known: texts(known@),
            },
            PlanError::Binding { problem } => PlanErrorView::Binding {
                problem: problem.deep_view(),
            },
        }
    }
}

impl PlanErrorView {
    pub open spec fn message(self) -> Seq<char> {
        match self {
            PlanErrorView::NoMonitorsConfigured => {
                "no monitors are configured. Run `desktop-switcher configure` first."@
            },
            PlanErrorView::UnknownMonitor { requested, known } => "`"@ + requested
                + "` is not a configured monitor. Configured: "@ + joined(known, ", "@),
            PlanErrorView::Binding { problem } => "cannot identify `"@ + problem.logical_id()
                + "`: "@ + problem.message(),
        }
    }
}

impl PlanError {
    pub fn to_string(&self) -> (r: String)
        ensures
            r@ == self.deep_view().message(),
    {
        match self {
            PlanError::NoMonitorsConfigured => {
                "no monitors are configured. Run `desktop-switcher configure` first.".to_owned()
            },
            PlanError::UnknownMonitor { requested, known } => {
                let list = join(known.as_slice(), ", ");
                cat4(
                    "`",
                    requested.as_str(),
                    "` is not a configured monitor. Configured: ",
                    list.as_str(),
                )
            },
            PlanError::Binding { problem } => cat4(
                "cannot identify `",
                problem.monitor(),
                "`: ",
                problem.to_string().as_str(),
            ),
        }
    }
}

/// One monitor about to be set to one input.
#[derive(Debug, PartialEq, Eq)]
pub struct PlannedSet {
    /// The monitor's configured key.
    pub key: String,
    /// Its human label, for reporting.
    pub label: String,
    pub handle: MonitorHandle,
    pub code: InputCode,
    /// Whether the monitor advertises this input. Advisory: capability
    /// strings are routinely wrong in both directions, so an unadvertised
    /// code is worth a warning and not a refusal.
    pub advertised: bool,
}

pub struct PlannedSetView {
    pub key: Seq<char>,
    pub label: Seq<char>,
    pub handle: MonitorHandleView,
    pub code: InputCode,
    pub advertised: bool,
}

impl DeepView for PlannedSet {
    type V = PlannedSetView;

    open spec fn deep_view(&self) -> PlannedSetView {
        PlannedSetView {
            key: self.key@,
            label: self.label@,
            handle: self.handle.deep_view(),
            code: self.code,
            advertised: self.advertised,
        }
    }
}

impl Clone for PlannedSet {
    fn clone(&self) -> (r: Self)
        ensures
            r.deep_view() == self.deep_view(),
    {
        PlannedSet {
            key: self.key.clone(),
            label: self.label.clone(),
            handle: self.handle.clone(),
            code: self.code,
            advertised: self.advertised,
        }
    }
}

/// Holds of a problem with the monitor of this key.
pub open spec fn about(key: Seq<char>) -> spec_fn(BindingProblemView) -> bool {
    |p: BindingProblemView| p.logical_id() == key
}

pub open spec fn keys_of(monitors: Seq<MonitorConfigView>) -> Seq<Seq<char>> {
    monitors.map_values(|m: MonitorConfigView| m.key)
}

/// "Set this monitor to this input", resolved against what is attached.
pub open spec fn planned(
    config: ConfigView,
    detected: Seq<DetectedMonitorView>,
    name: Seq<char>,
    code: InputCode,
) -> Result<PlannedSetView, PlanErrorView> {
    if config.monitors.len() == 0 {
        Err(PlanErrorView::NoMonitorsConfigured)
    } else {
        match config.monitor(name) {
            None => Err(
                PlanErrorView::UnknownMonitor { requested: name, known: keys_of(config.monitors) },
            ),
            Some(cfg) => {
                let problems = problems_of(config.monitors, detected);
                match first_index(problems, about(cfg.key)) {
                    Some(i) => Err(PlanErrorView::Binding { problem: problems[i] }),
                    None => {
                        let bound = bindings_of(config.monitors, detected);
                        Ok(
                            PlannedSetView {
                                key: cfg.key,
                                label: cfg.label,
                                handle: bound[first_index(
                                    bound,
                                    binds_key(cfg.key),
                                )->0].detected.handle(),
                                code,
                                advertised: cfg.input(code) is Some,
                            },
                        )
                    },
                }
            },
        }
    }
}

fn key_list(monitors: &Vec<MonitorConfig>) -> (r: Vec<String>)
    ensures
        texts(r@) == keys_of(monitors.deep_view()),
{
    let ghost want = keys_of(monitors.deep_view());
    let mut out: Vec<String> = Vec::new();
    let mut i: usize = 0;
    while i < monitors.len()
        invariant
            i <= monitors.len(),
            want == keys_of(monitors.deep_view()),
            texts(out@) == want.take(i as int),
        decreases monitors.len() - i,
    {
        let ghost before = out@;
        out.push(monitors[i].key.clone());
        assert(texts(out@) =~= texts(before).push(want[i as int]));
        assert(want.take(i as int + 1) =~= want.take(i as int).push(want[i as int]));
        i += 1;
    }
    assert(want.take(want.len() as int) =~= want);
    out
}

/// The first problem with the monitor of a key.
fn problem_with<'p>(problems: &'p Vec<BindingProblem>, key: &str) -> (r: Option<
    &'p BindingProblem,
>)
    ensures
        match r {
            Some(p) => first_index(problems.deep_view(), about(key@)) matches Some(i)
                && problems.deep_view()[i] == p.deep_view(),
            None => first_index(problems.deep_view(), about(key@)) is None,
        },
{
    let ghost all = problems.deep_view();
    let mut i: usize = 0;
    while i < problems.len()
        invariant
            i <= problems.len(),
            all == problems.deep_view(),
            forall|j: int| 0 <= j < i ==> !about(key@)(#[trigger] all[j]),
        decreases problems.len() - i,
    {
        if same(problems[i].monitor(), key) {
            proof {
                assert(about(key@)(all[i as int]));
                lemma_first_index_here(all, about(key@), i as int);
            }
            return Some(&problems[i]);
        }
        i += 1;
    }
    proof {
        lemma_first_index_none(all, about(key@));
    }
    None
}

/// A problem is about the monitor that was not bound.
proof fn lemma_problem_names_its_monitor(
    cfg: MonitorConfigView,
    detected: Seq<DetectedMonitorView>,
)
    ensures
        resolution(cfg, detected) matches Err(p) ==> p.logical_id() == cfg.key,
        resolution(cfg, detected) matches Ok(b) ==> b.monitor == cfg,
{
}

/// A configured monitor with no problem is bound.
proof fn lemma_no_problem_means_bound(
    monitors: Seq<MonitorConfigView>,
    detected: Seq<DetectedMonitorView>,
    k: int,
)
    requires
        0 <= k < monitors.len(),
        first_index(problems_of(monitors, detected), about(monitors[k].key)) is None,
    ensures
        first_index(bindings_of(monitors, detected), binds_key(monitors[k].key)) is Some,
{
    let key = monitors[k].key;
    let problems = problems_of(monitors, detected);
    let bound = bindings_of(monitors, detected);
    law_every_monitor_is_accounted_for(monitors, detected);
    lemma_problem_names_its_monitor(monitors[k], detected);
    lemma_first_index(problems, about(key));
    lemma_first_index(bound, binds_key(key));
    match resolution(monitors[k], detected) {
        Ok(b) => {
            let i = choose|i: int| 0 <= i < bound.len() && bound[i] == b;
            assert(binds_key(key)(bound[i]));
        },
        Err(p) => {
            let i = choose|i: int| 0 <= i < problems.len() && problems[i] == p;
            assert(about(key)(problems[i]));
        },
    }
}

/// Resolve "set this monitor to this input" against what is actually attached.
pub fn plan_set_input(
    config: &Config,
    detected: &[DetectedMonitor],
    monitor_name: &str,
    code: InputCode,
) -> (r: Result<PlannedSet, PlanError>)
    ensures
        match r {
            Ok(p) => planned(config.deep_view(), detected.deep_view(), monitor_name@, code) == Ok::<
                PlannedSetView,
                PlanErrorView,
            >(p.deep_view()),
            Err(e) => planned(config.deep_view(), detected.deep_view(), monitor_name@, code)
                == Err::<PlannedSetView, PlanErrorView>(e.deep_view()),
        },
{
    if config.monitors.len() == 0 {
        return Err(PlanError::NoMonitorsConfigured);
    }
    let cfg = match config.monitor(monitor_name) {
        Some(cfg) => cfg,
        None => {
            return Err(
                PlanError::UnknownMonitor {
                    requested: monitor_name.to_owned(),
                    known: key_list(&config.monitors),
                },
            );
        },
    };
    let bindings = bind(config, detected);
    match problem_with(&bindings.problems, cfg.key.as_str()) {
        Some(problem) => {
            return Err(PlanError::Binding { problem: problem.clone() });
        },
        None => {},
    }
    proof {
        let ms = config.deep_view().monitors;
        lemma_first_index(ms, named(monitor_name@));
        let k = first_index(ms, named(monitor_name@))->0;
        assert(ms[k] == cfg.deep_view());
        lemma_no_problem_means_bound(ms, detected.deep_view(), k);
    }
    match bindings.get(cfg.key.as_str()) {
        Some(binding) => Ok(
            PlannedSet {
                key: cfg.key.clone(),
                label: cfg.label.clone(),
                handle: binding.handle(),
                code,
                advertised: cfg.input(code).is_some(),
            },
        ),
        None => {
            assert(false);
            Err(PlanError::NoMonitorsConfigured)
        },
    }
}

// ---------------------------------------------------------------------------
// Toggling
// ---------------------------------------------------------------------------

/// The input a toggle sets: the second where the monitor reports the first,
/// and the first otherwise.
pub open spec fn toggled(
    reported: Option<InputCode>,
    first: InputCode,
    second: InputCode,
) -> InputCode {
    if reported == Some(first) {
        second
    } else {
        first
    }
}

/// Which of two inputs to set, from what the monitor reports.
pub fn toggle_target(reported: Option<InputCode>, between: [InputCode; 2]) -> (r: InputCode)
    ensures
        r == toggled(reported, between@[0], between@[1]),
{
    match reported {
        Some(code) => {
            if code.get() == between[0].get() {
                between[1]
            } else {
                between[0]
            }
        },
        None => between[0],
    }
}

/// A toggle only ever sets one of the two inputs, and a monitor that reports
/// what it was set to is back where it was after two toggles.
pub proof fn law_a_toggle_flips_between_two(
    reported: Option<InputCode>,
    first: InputCode,
    second: InputCode,
)
    ensures
        toggled(reported, first, second) == first || toggled(reported, first, second) == second,
        reported == Some(first) ==> toggled(
            Some(toggled(reported, first, second)),
            first,
            second,
        ) == first,
        reported == Some(second) ==> toggled(
            Some(toggled(reported, first, second)),
            first,
            second,
        ) == second,
{
}

// ---------------------------------------------------------------------------
// Options and reports
// ---------------------------------------------------------------------------

#[derive(Debug, Clone, Copy)]
pub struct ExecOptions {
    /// Pause after a write before attempting to read it back, in
    /// milliseconds.
    pub settle_ms: u64,
    pub read_back: bool,
    /// Report what would happen without touching the hardware.
    pub dry_run: bool,
    /// Stay quiet when the monitor reports the requested input already. A
    /// panel can report an input it is not showing, so this is off unless
    /// asked for.
    pub skip_reported: bool,
}

impl Default for ExecOptions {
    fn default() -> (r: Self)
        ensures
            r == (ExecOptions {
                settle_ms: 1200,
                read_back: true,
                dry_run: false,
                skip_reported: false,
            }),
    {
        ExecOptions { settle_ms: 1200, read_back: true, dry_run: false, skip_reported: false }
    }
}

#[derive(Debug, PartialEq, Eq)]
pub struct StepReport {
    pub key: String,
    pub label: String,
    pub requested: InputCode,
    pub before: Option<InputReading>,
    pub outcome: WriteOutcome,
    pub after: Option<InputReading>,
    /// Set when no write was issued because the monitor was already there.
    pub skipped_already_correct: bool,
}

pub struct StepReportView {
    pub key: Seq<char>,
    pub label: Seq<char>,
    pub requested: InputCode,
    pub before: Option<InputReadingView>,
    pub outcome: WriteOutcomeView,
    pub after: Option<InputReadingView>,
    pub skipped_already_correct: bool,
}

pub open spec fn opt_reading(o: Option<InputReading>) -> Option<InputReadingView> {
    match o {
        Some(r) => Some(r.deep_view()),
        None => None,
    }
}

impl Clone for StepReport {
    fn clone(&self) -> (r: Self)
        ensures
            r.deep_view() == self.deep_view(),
    {
        StepReport {
            key: self.key.clone(),
            label: self.label.clone(),
            requested: self.requested,
            before: copy_reading(&self.before),
            outcome: self.outcome.clone(),
            after: copy_reading(&self.after),
            skipped_already_correct: self.skipped_already_correct,
        }
    }
}

fn copy_reading(o: &Option<InputReading>) -> (r: Option<InputReading>)
    ensures
        opt_reading(r) == opt_reading(*o),
{
    match o {
        Some(x) => Some(x.clone()),
        None => None,
    }
}

impl DeepView for StepReport {
    type V = StepReportView;

    open spec fn deep_view(&self) -> StepReportView {
        StepReportView {
            key: self.key@,
            label: self.label@,
            requested: self.requested,
            before: opt_reading(self.before),
            outcome: self.outcome.deep_view(),
            after: opt_reading(self.after),
            skipped_already_correct: self.skipped_already_correct,
        }
    }
}

#[derive(Debug, Clone, Copy, PartialEq, Eq, Structural)]
pub enum ApplyStatus {
    /// Every monitor read back as requested.
    AllConfirmed,
    /// Every write was accepted, but at least one could not be verified.
    AllIssuedSomeUnconfirmed,
    Partial,
    AllFailed,
}

/// How a status is told. A read-back is the monitor quoting its own register,
/// so it is told as that.
pub open spec fn status_text(status: ApplyStatus) -> Seq<char> {
    match status {
        ApplyStatus::AllConfirmed => "stored by the monitor; it does not report what it displays"@,
        ApplyStatus::AllIssuedSomeUnconfirmed => {
            "issued; could not be confirmed (expected if the input belongs to another computer)"@
        },
        ApplyStatus::Partial => "PARTIAL: some monitors failed"@,
        ApplyStatus::AllFailed => "FAILED: nothing was switched"@,
    }
}

impl ApplyStatus {
    pub fn to_string(&self) -> (r: String)
        ensures
            r@ == status_text(*self),
    {
        match self {
            ApplyStatus::AllConfirmed => {
                "stored by the monitor; it does not report what it displays".to_owned()
            },
            ApplyStatus::AllIssuedSomeUnconfirmed => {
                "issued; could not be confirmed (expected if the input belongs to another computer)".to_owned()
            },
            ApplyStatus::Partial => "PARTIAL: some monitors failed".to_owned(),
            ApplyStatus::AllFailed => "FAILED: nothing was switched".to_owned(),
        }
    }
}

#[derive(Debug, PartialEq, Eq)]
pub struct ApplyReport {
    pub steps: Vec<StepReport>,
    pub dry_run: bool,
}

/// A step that is known to have failed.
pub open spec fn step_failed(s: StepReportView) -> bool {
    s.outcome.is_failure()
}

pub open spec fn any_failed(steps: Seq<StepReportView>) -> bool {
    exists|i: int| 0 <= i < steps.len() && #[trigger] step_failed(steps[i])
}

pub open spec fn all_failed(steps: Seq<StepReportView>) -> bool {
    forall|i: int| 0 <= i < steps.len() ==> #[trigger] step_failed(steps[i])
}

pub open spec fn all_stored(steps: Seq<StepReportView>) -> bool {
    forall|i: int| 0 <= i < steps.len() ==> (#[trigger] steps[i]).outcome is StoredByMonitor
}

/// How several sets went, taken together.
pub open spec fn status_of(steps: Seq<StepReportView>) -> ApplyStatus {
    if steps.len() > 0 && all_failed(steps) {
        ApplyStatus::AllFailed
    } else if any_failed(steps) {
        ApplyStatus::Partial
    } else if all_stored(steps) {
        ApplyStatus::AllConfirmed
    } else {
        ApplyStatus::AllIssuedSomeUnconfirmed
    }
}

/// 0 stored or issued, 1 partial, 2 total failure.
pub open spec fn exit_code_of(status: ApplyStatus) -> i32 {
    match status {
        ApplyStatus::AllConfirmed | ApplyStatus::AllIssuedSomeUnconfirmed => 0,
        ApplyStatus::Partial => 1,
        ApplyStatus::AllFailed => 2,
    }
}

impl ApplyReport {
    pub fn status(&self) -> (r: ApplyStatus)
        ensures
            r == status_of(self.steps.deep_view()),
    {
        let ghost steps = self.steps.deep_view();
        let mut failed: bool = false;
        let mut lasting: bool = false;
        let mut stored: bool = true;
        let mut i: usize = 0;
        while i < self.steps.len()
            invariant
                i <= self.steps.len(),
                steps == self.steps.deep_view(),
                failed <==> exists|j: int| 0 <= j < i && #[trigger] step_failed(steps[j]),
                lasting <==> exists|j: int| 0 <= j < i && !#[trigger] step_failed(steps[j]),
                stored <==> forall|j: int|
                    0 <= j < i ==> (#[trigger] steps[j]).outcome is StoredByMonitor,
            decreases self.steps.len() - i,
        {
            let s = &self.steps[i];
            assert(steps[i as int] == s.deep_view());
            if s.outcome.is_failure() {
                assert(step_failed(steps[i as int]));
                failed = true;
            } else {
                assert(!step_failed(steps[i as int]));
                lasting = true;
            }
            let was_stored = match &s.outcome {
                WriteOutcome::StoredByMonitor(_) => true,
                _ => false,
            };
            if !was_stored {
                stored = false;
            }
            i += 1;
        }
        if self.steps.len() > 0 && !lasting {
            return ApplyStatus::AllFailed;
        }
        if failed {
            return ApplyStatus::Partial;
        }
        if stored {
            ApplyStatus::AllConfirmed
        } else {
            ApplyStatus::AllIssuedSomeUnconfirmed
        }
    }

    /// Exit code: 0 stored or issued, 1 partial, 2 total failure.
    pub fn exit_code(&self) -> (r: i32)
        ensures
            r == exit_code_of(status_of(self.steps.deep_view())),
    {
        match self.status() {
            ApplyStatus::AllConfirmed | ApplyStatus::AllIssuedSomeUnconfirmed => 0,
            ApplyStatus::Partial => 1,
            ApplyStatus::AllFailed => 2,
        }
    }
}

// ---------------------------------------------------------------------------
// What a backend's answers mean
// ---------------------------------------------------------------------------

/// A reading, or the reading that a failed read stands for.
pub open spec fn best_effort_view(
    answer: Result<InputReadingView, BackendErrorView>,
) -> InputReadingView {
    match answer {
        Ok(r) => r,
        Err(e) => InputReadingView::ReadFailed { detail: e.message() },
    }
}

/// A read that fails immediately after a write is "unavailable after switch"
/// rather than a fault: the input just selected may belong to another
/// machine, and treating the silence as an error would call a successful
/// switch a failure.
pub open spec fn after_write_view(
    answer: Result<InputReadingView, BackendErrorView>,
) -> InputReadingView {
    match answer {
        Ok(InputReadingView::ReadFailed { detail }) => {
            InputReadingView::UnavailableAfterSwitch { detail }
        },
        Ok(r) => r,
        Err(e) => InputReadingView::UnavailableAfterSwitch { detail: e.message() },
    }
}

/// What a write came to, before anything is read back.
pub open spec fn issued_view(
    answer: Result<WriteOutcomeView, BackendErrorView>,
) -> WriteOutcomeView {
    match answer {
        Ok(o) => o,
        Err(e) => WriteOutcomeView::Failed { detail: e.message() },
    }
}

/// What a write came to, given what was read back after it.
pub open spec fn judged_view(reading: InputReadingView, code: InputCode) -> WriteOutcomeView {
    match reading {
        InputReadingView::Value(v) => if v == code {
            WriteOutcomeView::StoredByMonitor(v)
        } else {
            WriteOutcomeView::Unknown {
                detail: "read back "@ + code_text(v) + ", expected "@ + code_text(code),
            }
        },
        // Losing contact right after the write is the normal outcome when the
        // input belongs to another computer.
        InputReadingView::UnavailableAfterSwitch { .. } => WriteOutcomeView::Accepted,
        InputReadingView::ReadFailed { detail } => WriteOutcomeView::Unknown {
            detail: "write accepted, read-back failed: "@ + detail,
        },
        InputReadingView::Unsupported => WriteOutcomeView::Accepted,
    }
}

/// A reading, or the reading that a failed read stands for.
pub fn best_effort(answer: Result<InputReading, BackendError>) -> (r: InputReading)
    ensures
        r.deep_view() == best_effort_view(reading_answer(answer)),
{
    match answer {
        Ok(r) => r,
        Err(e) => InputReading::ReadFailed { detail: e.to_string() },
    }
}

/// The reading that an answer straight after a write stands for.
pub fn after_write(answer: Result<InputReading, BackendError>) -> (r: InputReading)
    ensures
        r.deep_view() == after_write_view(reading_answer(answer)),
{
    match answer {
        Ok(InputReading::ReadFailed { detail }) => InputReading::UnavailableAfterSwitch { detail },
        Ok(r) => r,
        Err(e) => InputReading::UnavailableAfterSwitch { detail: e.to_string() },
    }
}

/// What a write came to, before anything is read back.
pub fn issued(answer: Result<WriteOutcome, BackendError>) -> (r: WriteOutcome)
    ensures
        r.deep_view() == issued_view(write_answer(answer)),
{
    match answer {
        Ok(o) => o,
        Err(e) => WriteOutcome::Failed { detail: e.to_string() },
    }
}

/// What a write came to, given what was read back after it.
pub fn judged(reading: &InputReading, code: InputCode) -> (r: WriteOutcome)
    ensures
        r.deep_view() == judged_view(reading.deep_view(), code),
{
    match reading {
        InputReading::Value(v) => if *v == code {
            WriteOutcome::StoredByMonitor(*v)
        } else {
            WriteOutcome::Unknown {
                detail: cat4(
                    "read back ",
                    v.to_string().as_str(),
                    ", expected ",
                    code.to_string().as_str(),
                ),
            }
        },
        InputReading::UnavailableAfterSwitch { .. } => WriteOutcome::Accepted,
        InputReading::ReadFailed { detail } => WriteOutcome::Unknown {
            detail: cat2("write accepted, read-back failed: ", detail.as_str()),
        },
        InputReading::Unsupported => WriteOutcome::Accepted,
    }
}

// ---------------------------------------------------------------------------
// Applying
// ---------------------------------------------------------------------------

/// What a backend answered while one monitor was set: to the read before, to
/// the write, and to the read after.
pub struct Answers {
    pub before: Result<InputReadingView, BackendErrorView>,
    pub write: Result<WriteOutcomeView, BackendErrorView>,
    pub after: Result<InputReadingView, BackendErrorView>,
}

/// Whether nothing is written because the monitor reports the input already.
pub open spec fn skips(plan: PlannedSetView, opts: ExecOptions, a: Answers) -> bool {
    !opts.dry_run && opts.skip_reported && best_effort_view(a.before).value() == Some(plan.code)
}

/// Whether the write goes out.
pub open spec fn writes(plan: PlannedSetView, opts: ExecOptions, a: Answers) -> bool {
    !opts.dry_run && !skips(plan, opts, a)
}

/// Whether the monitor is read again after the write.
pub open spec fn reads_back(opts: ExecOptions, a: Answers) -> bool {
    opts.read_back && !issued_view(a.write).is_failure()
}

/// What the backend is asked while one monitor is set, and what it answers:
/// the monitor is read, written to, and read again, as far as it comes to
/// that.
pub open spec fn exchanges(plan: PlannedSetView, opts: ExecOptions, a: Answers) -> Seq<Exchange> {
    let first = seq![Exchange::Read(plan.handle, a.before)];
    let write = Exchange::Wrote(plan.handle, plan.code, a.write);
    if !writes(plan, opts, a) {
        first
    } else if !reads_back(opts, a) {
        first.push(write)
    } else {
        first.push(write).push(Exchange::Read(plan.handle, a.after))
    }
}

/// The waits while one monitor is set: between the write and reading it back it
/// is given time to settle, where any was asked for. `heard` counts the
/// exchanges before.
pub open spec fn waits_for(plan: PlannedSetView, opts: ExecOptions, a: Answers, heard: nat) -> Seq<
    Wait,
> {
    if writes(plan, opts, a) && reads_back(opts, a) && opts.settle_ms > 0 {
        seq![Wait { ms: opts.settle_ms, after: heard + 2 }]
    } else {
        Seq::empty()
    }
}

/// The report on one set, from what the backend answered.
pub open spec fn set_report(plan: PlannedSetView, opts: ExecOptions, a: Answers) -> StepReportView {
    let before = Some(best_effort_view(a.before));
    let back = reads_back(opts, a);
    let reading = after_write_view(a.after);
    StepReportView {
        key: plan.key,
        label: plan.label,
        requested: plan.code,
        before,
        outcome: if opts.dry_run {
            WriteOutcomeView::Unknown { detail: "dry run: no write issued"@ }
        } else if skips(plan, opts, a) {
            WriteOutcomeView::StoredByMonitor(plan.code)
        } else if back {
            judged_view(reading, plan.code)
        } else {
            issued_view(a.write)
        },
        after: if writes(plan, opts, a) && back {
            Some(reading)
        } else {
            None
        },
        skipped_already_correct: skips(plan, opts, a),
    }
}

/// What is logged of one set: the kind of event and its fields.
pub open spec fn set_event(plan: PlannedSetView, opts: ExecOptions, a: Answers) -> Option<
    (Seq<char>, Seq<(Seq<char>, Seq<char>)>),
> {
    if opts.dry_run {
        None
    } else if skips(plan, opts, a) {
        Some(
            (
                "input.skip"@,
                seq![
                    ("monitor"@, plan.key),
                    ("code"@, code_text(plan.code)),
                    ("reason"@, "already-on-requested-input"@),
                ],
            ),
        )
    } else {
        Some(
            (
                "input.write"@,
                seq![
                    ("monitor"@, plan.key),
                    ("id"@, plan.handle.backend_id),
                    ("code"@, code_text(plan.code)),
                    ("outcome"@, issued_view(a.write).text()),
                ],
            ),
        )
    }
}

/// A log took one event, or none.
pub open spec fn logged(
    before: EventLog,
    after: EventLog,
    event: Option<(Seq<char>, Seq<(Seq<char>, Seq<char>)>)>,
) -> bool {
    match event {
        Some((kind, fields)) => took(before, after, kind, fields),
        None => after == before,
    }
}

/// Set one monitor's input.
///
/// No rollback and no retry live here. A write is never repeated on this
/// layer: it may already have been accepted, and repeating an input switch
/// during re-enumeration compounds the disconnect. A backend that can *prove*
/// its write never reached the panel may retry internally, which is a
/// different and safe thing.
pub fn apply_one<B: MonitorBackend, P: Fn(u64)>(
    plan: &PlannedSet,
    backend: &mut B,
    opts: ExecOptions,
    log: &mut EventLog,
    clock: &mut Clock<P>,
) -> (r: StepReport)
    ensures
        exists|a: Answers|
            {
                &&& r.deep_view() == #[trigger] set_report(plan.deep_view(), opts, a)
                &&& logged(*old(log), *final(log), set_event(plan.deep_view(), opts, a))
                &&& if writes(plan.deep_view(), opts, a) {
                    wrote_only(
                        old(backend).sent(),
                        final(backend).sent(),
                        plan.handle.backend_id@,
                        plan.code,
                    )
                } else {
                    final(backend).sent() == old(backend).sent()
                }
                &&& final(backend).heard() == old(backend).heard() + exchanges(
                    plan.deep_view(),
                    opts,
                    a,
                )
                &&& final(clock).waits() == old(clock).waits() + waits_for(
                    plan.deep_view(),
                    opts,
                    a,
                    old(backend).heard().len(),
                )
            },
{
    let ghost p = plan.deep_view();
    let ghost waits = clock.waits();
    let ghost heard = backend.heard();
    let first = backend.read_input(&plan.handle);
    let ghost before_answer = reading_answer(first);
    let before = best_effort(first);
    let ghost quiet = Answers {
        before: before_answer,
        write: Err(BackendErrorView::Io(Seq::empty())),
        after: Err(BackendErrorView::Io(Seq::empty())),
    };
    if opts.dry_run {
        let r = StepReport {
            key: plan.key.clone(),
            label: plan.label.clone(),
            requested: plan.code,
            before: Some(before),
            outcome: WriteOutcome::Unknown { detail: "dry run: no write issued".to_owned() },
            after: None,
            skipped_already_correct: false,
        };
        assert(r.deep_view() == set_report(p, opts, quiet));
        assert(backend.heard() =~= heard + exchanges(p, opts, quiet));
        assert(clock.waits() =~= waits + waits_for(p, opts, quiet, heard.len()));
        return r;
    }
    let reported = match before.value() {
        Some(v) => v == plan.code,
        None => false,
    };
    if opts.skip_reported && reported {
        let fields: [(&str, String); 3] = [
            ("monitor", plan.key.clone()),
            ("code", plan.code.to_string()),
            ("reason", "already-on-requested-input".to_owned()),
        ];
        log.append("input.skip", fields.as_slice());
        let r = StepReport {
            key: plan.key.clone(),
            label: plan.label.clone(),
            requested: plan.code,
            before: Some(before),
            outcome: WriteOutcome::StoredByMonitor(plan.code),
            after: None,
            skipped_already_correct: true,
        };
        proof {
            assert(fields_view(fields@) =~= (set_event(p, opts, quiet)->0).1);
            assert(logged(*old(log), *log, set_event(p, opts, quiet)));
            assert(r.deep_view() == set_report(p, opts, quiet));
            assert(backend.heard() =~= heard + exchanges(p, opts, quiet));
            assert(clock.waits() =~= waits + waits_for(p, opts, quiet, heard.len()));
        }
        return r;
    }
    let written = backend.set_input(&plan.handle, plan.code);
    let ghost written_answer = write_answer(written);
    let outcome = issued(written);
    let fields: [(&str, String); 4] = [
        ("monitor", plan.key.clone()),
        ("id", plan.handle.backend_id.clone()),
        ("code", plan.code.to_string()),
        ("outcome", outcome.to_string()),
    ];
    log.append("input.write", fields.as_slice());
    let ghost unread = Answers {
        before: before_answer,
        write: written_answer,
        after: Err(BackendErrorView::Io(Seq::empty())),
    };
    proof {
        assert(fields_view(fields@) =~= (set_event(p, opts, unread)->0).1);
        assert(logged(*old(log), *log, set_event(p, opts, unread)));
    }
    if opts.read_back && !outcome.is_failure() {
        if opts.settle_ms > 0 {
            clock.wait(opts.settle_ms, backend);
        }
        let second = backend.read_input(&plan.handle);
        let ghost after_answer = reading_answer(second);
        let reading = after_write(second);
        let judgement = judged(&reading, plan.code);
        let r = StepReport {
            key: plan.key.clone(),
            label: plan.label.clone(),
            requested: plan.code,
            before: Some(before),
            outcome: judgement,
            after: Some(reading),
            skipped_already_correct: false,
        };
        proof {
            let a = Answers { before: before_answer, write: written_answer, after: after_answer };
            assert(set_event(p, opts, a) == set_event(p, opts, unread));
            assert(r.deep_view() == set_report(p, opts, a));
            assert(backend.heard() =~= heard + exchanges(p, opts, a));
            assert(clock.waits() =~= waits + waits_for(p, opts, a, heard.len()));
        }
        return r;
    }
    let r = StepReport {
        key: plan.key.clone(),
        label: plan.label.clone(),
        requested: plan.code,
        before: Some(before),
        outcome,
        after: None,
        skipped_already_correct: false,
    };
    assert(r.deep_view() == set_report(p, opts, unread));
    assert(backend.heard() =~= heard + exchanges(p, opts, unread));
    assert(clock.waits() =~= waits + waits_for(p, opts, unread, heard.len()));
    r
}

/// The reports on several sets, from what the backend answered to each.
pub open spec fn set_reports(
    plans: Seq<PlannedSetView>,
    opts: ExecOptions,
    answers: Seq<Answers>,
) -> Seq<StepReportView> {
    Seq::new(plans.len(), |i: int| set_report(plans[i], opts, answers[i]))
}

/// What the backend is asked while several monitors are set, one after the
/// other.
pub open spec fn all_exchanges(
    plans: Seq<PlannedSetView>,
    opts: ExecOptions,
    answers: Seq<Answers>,
) -> Seq<Exchange>
    decreases plans.len(),
{
    if plans.len() == 0 {
        Seq::empty()
    } else {
        let last = plans.len() - 1;
        all_exchanges(plans.take(last), opts, answers) + exchanges(
            plans[last],
            opts,
            answers[last],
        )
    }
}

/// The waits while several monitors are set, one after the other.
pub open spec fn all_waits(
    plans: Seq<PlannedSetView>,
    opts: ExecOptions,
    answers: Seq<Answers>,
    heard: nat,
) -> Seq<Wait>
    decreases plans.len(),
{
    if plans.len() == 0 {
        Seq::empty()
    } else {
        let last = plans.len() - 1;
        all_waits(plans.take(last), opts, answers, heard) + waits_for(
            plans[last],
            opts,
            answers[last],
            heard + all_exchanges(plans.take(last), opts, answers).len(),
        )
    }
}

/// Only what was answered to the sets themselves matters.
proof fn lemma_exchanges_of(
    plans: Seq<PlannedSetView>,
    opts: ExecOptions,
    a: Seq<Answers>,
    b: Seq<Answers>,
    heard: nat,
)
    requires
        forall|i: int| 0 <= i < plans.len() ==> #[trigger] a[i] == b[i],
    ensures
        all_exchanges(plans, opts, a) == all_exchanges(plans, opts, b),
        all_waits(plans, opts, a, heard) == all_waits(plans, opts, b, heard),
    decreases plans.len(),
{
    if plans.len() > 0 {
        lemma_exchanges_of(plans.take(plans.len() - 1), opts, a, b, heard);
        assert(a[plans.len() - 1] == b[plans.len() - 1]);
    }
}

/// One log became another, set by set: `logs` holds it before the first and
/// after each.
pub open spec fn logged_in_turn(
    plans: Seq<PlannedSetView>,
    opts: ExecOptions,
    answers: Seq<Answers>,
    logs: Seq<EventLog>,
) -> bool {
    &&& answers.len() == plans.len()
    &&& logs.len() == plans.len() + 1
    &&& forall|i: int|
        #![trigger plans[i]]
        0 <= i < plans.len() ==> logged(
            logs[i],
            logs[i + 1],
            set_event(plans[i], opts, answers[i]),
        )
}

/// Everything that was written is one of the sets asked for.
pub open spec fn wrote_planned(
    before: Seq<(Seq<char>, InputCode)>,
    after: Seq<(Seq<char>, InputCode)>,
    plans: Seq<PlannedSetView>,
) -> bool {
    &&& before.is_prefix_of(after)
    &&& forall|i: int|
        before.len() <= i < after.len() ==> exists|k: int|
            0 <= k < plans.len() && #[trigger] after[i] == (
                (#[trigger] plans[k]).handle.backend_id,
                plans[k].code,
            )
}

/// Apply several sets in order, independently.
///
/// One monitor failing does not abort the others: leaving half a desk on the
/// wrong input is worse than finishing the job. Nothing is rolled back —
/// with connectivity unknown, "undoing" a write is just another blind write.
pub fn apply_many<B: MonitorBackend, P: Fn(u64)>(
    plans: &[PlannedSet],
    backend: &mut B,
    opts: ExecOptions,
    log: &mut EventLog,
    clock: &mut Clock<P>,
) -> (r: ApplyReport)
    ensures
        r.dry_run == opts.dry_run,
        exists|answers: Seq<Answers>, logs: Seq<EventLog>|
            {
                &&& #[trigger] logged_in_turn(plans.deep_view(), opts, answers, logs)
                &&& r.steps.deep_view() == set_reports(plans.deep_view(), opts, answers)
                &&& logs[0] == *old(log)
                &&& logs.last() == *final(log)
                &&& final(backend).heard() == old(backend).heard() + all_exchanges(
                    plans.deep_view(),
                    opts,
                    answers,
                )
                &&& final(clock).waits() == old(clock).waits() + all_waits(
                    plans.deep_view(),
                    opts,
                    answers,
                    old(backend).heard().len(),
                )
            },
        wrote_planned(old(backend).sent(), final(backend).sent(), plans.deep_view()),
        opts.dry_run ==> final(backend).sent() == old(backend).sent(),
{
    let ghost ps = plans.deep_view();
    let mut steps: Vec<StepReport> = Vec::new();
    let ghost mut answers: Seq<Answers> = Seq::empty();
    let ghost mut logs: Seq<EventLog> = seq![*log];
    let mut i: usize = 0;
    assert(steps.deep_view() =~= set_reports(ps.take(0), opts, answers));
    assert(backend.heard() =~= old(backend).heard() + all_exchanges(ps.take(0), opts, answers));
    let ghost heard = backend.heard().len();
    assert(clock.waits() =~= old(clock).waits() + all_waits(ps.take(0), opts, answers, heard));
    while i < plans.len()
        invariant
            i <= plans.len(),
            ps == plans.deep_view(),
            answers.len() == i,
            steps.deep_view() == set_reports(ps.take(i as int), opts, answers),
            wrote_planned(old(backend).sent(), backend.sent(), ps),
            opts.dry_run ==> backend.sent() == old(backend).sent(),
            logged_in_turn(ps.take(i as int), opts, answers, logs),
            logs[0] == *old(log),
            logs.last() == *log,
            backend.heard() == old(backend).heard() + all_exchanges(
                ps.take(i as int),
                opts,
                answers,
            ),
            heard == old(backend).heard().len(),
            clock.waits() == old(clock).waits() + all_waits(
                ps.take(i as int),
                opts,
                answers,
                heard,
            ),
        decreases plans.len() - i,
    {
        let ghost heard_before = backend.heard();
        let ghost waits_before = clock.waits();
        let ghost sent_before = backend.sent();
        let ghost log_before = *log;
        let ghost steps_before = steps.deep_view();
        let report = apply_one(&plans[i], backend, opts, log, clock);
        proof {
            let p = ps[i as int];
            assert(p == plans[i as int].deep_view());
            let a = choose|a: Answers|
                {
                    &&& report.deep_view() == #[trigger] set_report(p, opts, a)
                    &&& logged(log_before, *log, set_event(p, opts, a))
                    &&& if writes(p, opts, a) {
                        wrote_only(sent_before, backend.sent(), p.handle.backend_id, p.code)
                    } else {
                        backend.sent() == sent_before
                    }
                    &&& backend.heard() == heard_before + exchanges(p, opts, a)
                    &&& clock.waits() == waits_before + waits_for(
                        p,
                        opts,
                        a,
                        heard_before.len(),
                    )
                };
            let answers_before = answers;
            let logs_before = logs;
            answers = answers.push(a);
            logs = logs.push(*log);
            let s0 = old(backend).sent();
            let s2 = backend.sent();
            assert forall|j: int| s0.len() <= j < s2.len() implies exists|k: int|
                0 <= k < ps.len() && #[trigger] s2[j] == (
                    (#[trigger] ps[k]).handle.backend_id,
                    ps[k].code,
                ) by {
                if j < sent_before.len() {
                    assert(s2[j] == sent_before[j]);
                } else {
                    assert(s2[j] == (p.handle.backend_id, p.code));
                    assert(ps[i as int] == p);
                }
            }
            assert(s0.is_prefix_of(s2));
            let next = ps.take(i as int + 1);
            lemma_exchanges_of(ps.take(i as int), opts, answers_before, answers, heard);
            assert(next.take(i as int) =~= ps.take(i as int));
            assert(backend.heard() =~= old(backend).heard() + all_exchanges(next, opts, answers));
            assert(clock.waits() =~= old(clock).waits() + all_waits(next, opts, answers, heard));
            assert forall|k: int|
                #![trigger next[k]]
                0 <= k < next.len() implies logged(
                logs[k],
                logs[k + 1],
                set_event(next[k], opts, answers[k]),
            ) by {
                if k < i {
                    assert(next[k] == ps.take(i as int)[k]);
                    assert(logs[k] == logs_before[k] && logs[k + 1] == logs_before[k + 1]);
                    assert(answers[k] == answers_before[k]);
                } else {
                    assert(logs[k] == log_before);
                }
            }
            assert forall|k: int| 0 <= k < i implies set_report(next[k], opts, answers[k])
                == set_report(ps.take(i as int)[k], opts, answers_before[k]) by {}
            assert(set_reports(next, opts, answers) =~= steps_before.push(report.deep_view()));
        }
        let ghost rv = report.deep_view();
        steps.push(report);
        assert(steps.deep_view() =~= steps_before.push(rv));
        i += 1;
    }
    assert(ps.take(ps.len() as int) =~= ps);
    ApplyReport { steps, dry_run: opts.dry_run }
}

// ---------------------------------------------------------------------------
// What applying promises
// ---------------------------------------------------------------------------

/// The write goes out whatever the monitor reports, unless a dry run or
/// staying quiet was asked for.
pub proof fn law_the_write_always_goes_out(plan: PlannedSetView, opts: ExecOptions, a: Answers)
    requires
        !opts.dry_run,
        !opts.skip_reported,
    ensures
        writes(plan, opts, a),
        !set_report(plan, opts, a).skipped_already_correct,
{
}

/// Setting a monitor asks that monitor and no other, and writes to it once at
/// the most: never before it was read, and never again after it was read back.
pub proof fn law_one_write_to_one_monitor(plan: PlannedSetView, opts: ExecOptions, a: Answers)
    ensures
        exchanges(plan, opts, a)[0] == Exchange::Read(plan.handle, a.before),
        forall|i: int|
            0 <= i < exchanges(plan, opts, a).len() ==> match #[trigger] exchanges(
                plan,
                opts,
                a,
            )[i] {
                Exchange::Read(handle, _) => handle == plan.handle && i != 1,
                Exchange::Wrote(handle, code, _) => handle == plan.handle && code == plan.code
                    && i == 1,
                _ => false,
            },
        exchanges(plan, opts, a).len() > 1 <==> writes(plan, opts, a),
{
}

/// A dry run writes nothing and claims nothing.
pub proof fn law_a_dry_run_writes_nothing(plan: PlannedSetView, opts: ExecOptions, a: Answers)
    requires
        opts.dry_run,
    ensures
        !writes(plan, opts, a),
        set_event(plan, opts, a) is None,
        set_report(plan, opts, a).outcome is Unknown,
        set_report(plan, opts, a).after is None,
{
}

/// A set is reported as failed exactly when the write went out and the
/// backend says that it failed. Losing contact with the monitor afterwards
/// never makes it a failure.
pub proof fn law_silence_after_a_write_is_no_failure(
    plan: PlannedSetView,
    opts: ExecOptions,
    a: Answers,
)
    ensures
        set_report(plan, opts, a).outcome.is_failure() <==> writes(plan, opts, a) && issued_view(
            a.write,
        ).is_failure(),
{
}

/// A set is reported as stored only when the monitor read the requested code
/// back, or reported it beforehand and staying quiet was asked for, or the
/// backend itself says so and nothing was read back.
pub proof fn law_a_read_back_must_match(plan: PlannedSetView, opts: ExecOptions, a: Answers)
    requires
        set_report(plan, opts, a).outcome is StoredByMonitor,
    ensures
        (reads_back(opts, a) && a.after == Ok::<InputReadingView, BackendErrorView>(
            InputReadingView::Value(plan.code),
        )) || skips(plan, opts, a) || (!reads_back(opts, a) && a.write matches Ok(
            WriteOutcomeView::StoredByMonitor(_),
        )),
{
}

/// No read-back is ever told as a person's confirmation.
pub proof fn law_a_read_back_is_not_confirmation(
    plan: PlannedSetView,
    opts: ExecOptions,
    a: Answers,
)
    requires
        a.write != Ok::<WriteOutcomeView, BackendErrorView>(WriteOutcomeView::ConfirmedByUser),
    ensures
        set_report(plan, opts, a).outcome !is ConfirmedByUser,
{
}

/// The exit code is 0 when nothing failed, 2 when everything did, and 1 in
/// between.
pub proof fn law_exit_codes_tell_failures(steps: Seq<StepReportView>)
    ensures
        exit_code_of(status_of(steps)) == 0 <==> !any_failed(steps),
        exit_code_of(status_of(steps)) == 2 <==> steps.len() > 0 && all_failed(steps),
        exit_code_of(status_of(steps)) == 1 <==> any_failed(steps) && !all_failed(steps),
{
    if steps.len() > 0 && all_failed(steps) {
        assert(step_failed(steps[0]));
    }
}

/// A plan addresses the one display that a configured monitor is bound to.
pub proof fn law_a_plan_addresses_a_bound_display(
    config: ConfigView,
    detected: Seq<DetectedMonitorView>,
    name: Seq<char>,
    code: InputCode,
)
    requires
        planned(config, detected, name, code) is Ok,
    ensures
        ({
            let p = planned(config, detected, name, code)->Ok_0;
            &&& p.code == code
            &&& exists|i: int|
                0 <= i < config.monitors.len() && (#[trigger] config.monitors[i]).key == p.key
                    && (resolution(config.monitors[i], detected) matches Ok(b) && p.handle
                    == b.detected.handle())
        }),
{
    let ms = config.monitors;
    let cfg = config.monitor(name)->0;
    lemma_first_index(ms, named(name));
    let k = first_index(ms, named(name))->0;
    lemma_no_problem_means_bound(ms, detected, k);
    let bound = bindings_of(ms, detected);
    lemma_first_index(bound, binds_key(cfg.key));
    let b = first_index(bound, binds_key(cfg.key))->0;
    lemma_bindings_come_from_monitors(ms, detected, b);
}

proof fn lemma_bindings_come_from_monitors(
    monitors: Seq<MonitorConfigView>,
    detected: Seq<DetectedMonitorView>,
    b: int,
)
    requires
        0 <= b < bindings_of(monitors, detected).len(),
    ensures
        exists|i: int|
            0 <= i < monitors.len() && resolution(#[trigger] monitors[i], detected) == Ok::<
                BindingView,
                BindingProblemView,
            >(bindings_of(monitors, detected)[b]) && bindings_of(monitors, detected)[b].monitor
                == monitors[i],
    decreases monitors.len(),
{
    if monitors.len() > 0 {
        let front = monitors.drop_last();
        lemma_problem_names_its_monitor(monitors.last(), detected);
        if b < bindings_of(front, detected).len() {
            lemma_bindings_come_from_monitors(front, detected, b);
            let i = choose|i: int|
                0 <= i < front.len() && resolution(#[trigger] front[i], detected) == Ok::<
                    BindingView,
                    BindingProblemView,
                >(bindings_of(front, detected)[b]) && bindings_of(front, detected)[b].monitor
                    == front[i];
            assert(monitors[i] == front[i]);
        } else {
            assert(monitors[monitors.len() - 1] == monitors.last());
        }
    }
}

// ---------------------------------------------------------------------------
// Serialising concurrent changes
// ---------------------------------------------------------------------------

#[derive(Debug, PartialEq, Eq)]
pub enum GuardError {
    Busy { path: String },
    Io { path: String, detail: String },
}

pub enum GuardErrorView {
    Busy { path: Seq<char> },
    Io { path: Seq<char>, detail: Seq<char> },
}

impl DeepView for GuardError {
    type V = GuardErrorView;

    open spec fn deep_view(&self) -> GuardErrorView {
        match self {
            GuardError::Busy { path } => GuardErrorView::Busy { path: path@ },
            GuardError::Io { path, detail } => GuardErrorView::Io { path: path@, detail: detail@ },
        }
    }
}

impl GuardErrorView {
    pub open spec fn message(self) -> Seq<char> {
        match self {
            GuardErrorView::Busy { path } => "another change is already running (lock held at "@
                + path + ")"@,
            GuardErrorView::Io { path, detail } => "could not create lock at "@ + path + ": "@
                + detail,
        }
    }
}

impl GuardError {
    pub fn to_string(&self) -> (r: String)
        ensures
            r@ == self.deep_view().message(),
    {
        match self {
            GuardError::Busy { path } => cat3(
                "another change is already running (lock held at ",
                path.as_str(),
                ")",
            ),
            GuardError::Io { path, detail } => cat4(
                "could not create lock at ",
                path.as_str(),
                ": ",
                detail.as_str(),
            ),
        }
    }

    /// What it means that the lock could not be created: it is held if it
    /// exists, and anything else is a fault.
    pub fn from_creation(path: &str, exists: bool, detail: &str) -> (r: GuardError)
        ensures
            r.deep_view() == (if exists {
                GuardErrorView::Busy { path: path@ }
            } else {
                GuardErrorView::Io { path: path@, detail: detail@ }
            }),
    {
        if exists {
            GuardError::Busy { path: path.to_owned() }
        } else {
            GuardError::Io { path: path.to_owned(), detail: detail.to_owned() }
        }
    }
}

/// Whether a lock left behind may be taken away: it is older than
/// `stale_after`, or nothing tells how old it is. A lock left by a killed
/// process must not wedge the tool.
pub fn lock_is_stale(age_nanos: Option<u128>, stale_after_nanos: u128) -> (r: bool)
    ensures
        r == (match age_nanos {
            Some(age) => age > stale_after_nanos,
            None => true,
        }),
{
    match age_nanos {
        Some(age) => age > stale_after_nanos,
        None => true,
    }
}

// ---------------------------------------------------------------------------
// Last request, tracked separately from observed state
// ---------------------------------------------------------------------------

/// What this tool last asked for.
///
/// Deliberately not called "current state": inputs can be changed with the
/// monitor's own buttons at any time, and by any other computer attached to
/// it. This is intent, and it is reported as intent.
#[derive(Debug, PartialEq, Eq)]
pub struct LastRequest {
    /// The action name, or a description of the one-off request.
    pub request: Option<String>,
    /// Milliseconds since the Unix epoch. `u64`, not `u128`: TOML integers
    /// are 64-bit, and a `u128` silently fails to serialise.
    pub at_unix_ms: Option<u64>,
}

pub struct LastRequestView {
    pub request: Option<Seq<char>>,
    pub at_unix_ms: Option<u64>,
}

impl DeepView for LastRequest {
    type V = LastRequestView;

    open spec fn deep_view(&self) -> LastRequestView {
        LastRequestView { request: opt_text(self.request), at_unix_ms: self.at_unix_ms }
    }
}

impl Default for LastRequest {
    fn default() -> (r: Self)
        ensures
            r.deep_view() == (LastRequestView { request: None, at_unix_ms: None }),
    {
        LastRequest { request: None, at_unix_ms: None }
    }
}

impl Clone for LastRequest {
    fn clone(&self) -> (r: Self)
        ensures
            r.deep_view() == self.deep_view(),
    {
        LastRequest { request: copy_opt(&self.request), at_unix_ms: self.at_unix_ms }
    }
}

impl LastRequestView {
    /// Whether `request`, made at `now`, repeats this one within `window`
    /// milliseconds. A clock that ran backwards counts as no time gone by.
    pub open spec fn repeated_at(self, request: Seq<char>, now: int, window: int) -> bool {
        match (self.request, self.at_unix_ms) {
            (Some(last), Some(at)) => last == request && (if now >= at {
                now - at
            } else {
                0
            }) < window,
            _ => false,
        }
    }
}

impl LastRequest {
    /// A request made at a given time.
    pub fn made_at(request: &str, now_ms: u64) -> (r: Self)
        ensures
            r.deep_view() == (LastRequestView {
                request: Some(request@),
                at_unix_ms: Some(now_ms),
            }),
    {
        LastRequest { request: Some(request.to_owned()), at_unix_ms: Some(now_ms) }
    }

    /// A request made now, to be kept for the next time.
    pub fn record(request: &str) -> (r: Self)
        ensures
            r.deep_view().request == Some(request@),
            exists|since: Option<u128>|
                r.deep_view().at_unix_ms == Some((#[trigger] capped(since)) as u64),
    {
        LastRequest::made_at(request, now_unix_ms())
    }

    /// Whether a request made at a given time repeats this one, e.g. a
    /// shortcut key held down. A zero window disables the guard rather than
    /// swallowing everything in the same millisecond.
    pub fn is_duplicate_at(&self, request: &str, now_ms: u64, window_ms: u64) -> (r: bool)
        ensures
            r == self.deep_view().repeated_at(request@, now_ms as int, window_ms as int),
    {
        match (&self.request, self.at_unix_ms) {
            (Some(last), Some(at)) => {
                let gone: u64 = if now_ms >= at {
                    now_ms - at
                } else {
                    0
                };
                same(last.as_str(), request) && gone < window_ms
            },
            _ => false,
        }
    }

    /// Whether this request repeats one just made.
    pub fn is_duplicate_of(&self, request: &str, window_ms: u64) -> (r: bool)
        ensures
            exists|since: Option<u128>|
                r == self.deep_view().repeated_at(
                    request@,
                    #[trigger] capped(since),
                    window_ms as int,
                ),
    {
        let now = now_unix_ms();
        self.is_duplicate_at(request, now, window_ms)
    }
}

/// A zero window, another request, or nothing recorded is never a duplicate,
/// and the same request straight away is one.
pub proof fn law_only_a_repeat_is_a_duplicate(
    last: LastRequestView,
    request: Seq<char>,
    now: int,
    window: int,
)
    ensures
        window <= 0 ==> !last.repeated_at(request, now, window),
        last.request != Some(request) ==> !last.repeated_at(request, now, window),
        last.at_unix_ms is None ==> !last.repeated_at(request, now, window),
        last.request == Some(request) && last.at_unix_ms == Some(now as u64) && 0 <= now <= u64::MAX
            && window > 0 ==> last.repeated_at(request, now, window),
{
}

/// Setting a monitor addresses the first one whose key, label or serial is the
/// name that was typed, all of it: the plan has that monitor's key and label,
/// the display that it is bound to, the code that was typed, and whether that
/// monitor lists it. A name that is none of these is refused as unknown.
pub proof fn law_a_plan_is_for_the_monitor_that_was_named(
    config: ConfigView,
    detected: Seq<DetectedMonitorView>,
    name: Seq<char>,
    code: InputCode,
)
    ensures
        match planned(config, detected, name, code) {
            Ok(p) => exists|i: int|
                {
                    &&& 0 <= i < config.monitors.len()
                    &&& is_asked_for(#[trigger] config.monitors[i], name)
                    &&& forall|j: int|
                        0 <= j < i ==> !is_asked_for(#[trigger] config.monitors[j], name)
                    &&& p.key == config.monitors[i].key
                    &&& p.label == config.monitors[i].label
                    &&& p.code == code
                    &&& p.advertised <==> exists|k: int|
                        0 <= k < config.monitors[i].inputs.len() && (
                        #[trigger] config.monitors[i].inputs[k]).input_code == code
                },
            Err(PlanErrorView::NoMonitorsConfigured) => config.monitors.len() == 0,
            Err(PlanErrorView::UnknownMonitor { requested, known }) => requested == name
                && config.monitors.len() > 0 && known.len() == config.monitors.len() && forall|
                j: int,
            |
                0 <= j < config.monitors.len() ==> !is_asked_for(
                    #[trigger] config.monitors[j],
                    name,
                ) && known[j] == config.monitors[j].key,
            Err(PlanErrorView::Binding { problem }) => exists|i: int|
                0 <= i < config.monitors.len() && is_asked_for(#[trigger] config.monitors[i], name)
                    && problem.logical_id() == config.monitors[i].key,
        },
{
    let ms = config.monitors;
    law_a_name_finds_the_first_that_answers(config, name);
    if ms.len() > 0 {
        match config.monitor(name) {
            None => {
                assert forall|j: int| 0 <= j < ms.len() implies keys_of(ms)[j] == (
                #[trigger] ms[j]).key by {}
            },
            Some(cfg) => {
                law_an_input_is_found_by_its_code(cfg, code);
                let i = choose|i: int|
                    0 <= i < ms.len() && #[trigger] ms[i] == cfg && is_asked_for(cfg, name)
                        && forall|j: int| 0 <= j < i ==> !is_asked_for(#[trigger] ms[j], name);
                assert(is_asked_for(ms[i], name));
                let problems = problems_of(ms, detected);
                lemma_first_index(problems, about(cfg.key));
            },
        }
    }
}

/// The write goes out: nothing but a dry run holds it back, or a monitor that
/// reports the requested input already where staying quiet was asked for.
pub open spec fn goes_out(plan: PlannedSetView, opts: ExecOptions, a: Answers) -> bool {
    &&& !opts.dry_run
    &&& !(opts.skip_reported && a.before == Ok::<InputReadingView, BackendErrorView>(
        InputReadingView::Value(plan.code),
    ))
}

/// The backend says that the write failed.
pub open spec fn write_failed(a: Answers) -> bool {
    a.write is Err || a.write matches Ok(WriteOutcomeView::Failed { .. })
}

/// A report is of the monitor and the code that were planned. It says that the
/// set failed exactly where the write went out and failed, in the backend's own
/// words; that the monitor stored the code only where it read that very code
/// back or the backend said so; that another code came back where one did; and
/// that it was issued and no more where the monitor fell silent.
pub proof fn law_a_report_says_what_happened(plan: PlannedSetView, opts: ExecOptions, a: Answers)
    ensures
        ({
            let r = set_report(plan, opts, a);
            let out = goes_out(plan, opts, a);
            let back = out && opts.read_back && !write_failed(a);
            &&& r.key == plan.key && r.label == plan.label && r.requested == plan.code
            &&& r.skipped_already_correct <==> !opts.dry_run && !out
            &&& r.outcome is Failed <==> out && write_failed(a)
            &&& out && !back ==> match a.write {
                Ok(o) => r.outcome == o,
                Err(e) => r.outcome == (WriteOutcomeView::Failed { detail: e.message() }),
            }
            &&& back ==> match a.after {
                Ok(InputReadingView::Value(v)) => if v == plan.code {
                    r.outcome == WriteOutcomeView::StoredByMonitor(v)
                } else {
                    r.outcome is Unknown
                },
                _ => r.outcome is Accepted,
            }
            &&& opts.dry_run ==> r.outcome is Unknown
            &&& r.after is Some <==> back
            &&& a.before matches Ok(reading) ==> r.before == Some(reading)
            &&& a.before is Err ==> r.before matches Some(InputReadingView::ReadFailed { .. })
        }),
{
}

/// Setting a monitor reads it, writes the planned code to it where the write
/// goes out, and reads it back where that was asked for and the write did not
/// fail, after the pause that was asked for.
pub proof fn law_a_set_is_these_exchanges(
    plan: PlannedSetView,
    opts: ExecOptions,
    a: Answers,
    heard: nat,
)
    ensures
        ({
            let out = goes_out(plan, opts, a);
            let back = out && opts.read_back && !write_failed(a);
            let sent = exchanges(plan, opts, a);
            &&& sent.len() == if back {
                3int
            } else if out {
                2
            } else {
                1
            }
            &&& sent[0] == Exchange::Read(plan.handle, a.before)
            &&& out ==> sent[1] == Exchange::Wrote(plan.handle, plan.code, a.write)
            &&& back ==> sent[2] == Exchange::Read(plan.handle, a.after)
            &&& if back && opts.settle_ms > 0 {
                waits_for(plan, opts, a, heard) == seq![
                    Wait { ms: opts.settle_ms, after: heard + 2 },
                ]
            } else {
                waits_for(plan, opts, a, heard).len() == 0
            }
        }),
{
}

/// What goes out is logged, and nothing is logged of a dry run: each event names
/// the monitor and the code.
pub proof fn law_what_goes_out_is_logged(plan: PlannedSetView, opts: ExecOptions, a: Answers)
    ensures
        set_event(plan, opts, a) is None <==> opts.dry_run,
        set_event(plan, opts, a) matches Some((kind, fields)) ==> {
            &&& kind == if goes_out(plan, opts, a) {
                "input.write"@
            } else {
                "input.skip"@
            }
            &&& fields.contains(("monitor"@, plan.key))
            &&& fields.contains(("code"@, code_text(plan.code)))
            &&& goes_out(plan, opts, a) ==> fields.contains(("id"@, plan.handle.backend_id))
            &&& goes_out(plan, opts, a) ==> exists|outcome: WriteOutcomeView|
                #[trigger] fields.contains(("outcome"@, outcome.text())) && (outcome is Failed
                    <==> write_failed(a))
        },
{
    if let Some((kind, fields)) = set_event(plan, opts, a) {
        assert(fields[0] == ("monitor"@, plan.key));
        if goes_out(plan, opts, a) {
            assert(fields[1] == ("id"@, plan.handle.backend_id));
            assert(fields[2] == ("code"@, code_text(plan.code)));
            let outcome = issued_view(a.write);
            assert(fields[3] == ("outcome"@, outcome.text()));
            assert(fields.contains(("outcome"@, outcome.text())));
        } else {
            assert(fields[1] == ("code"@, code_text(plan.code)));
        }
    }
}

/// The exit code is 2 where every monitor failed, 1 where some did, and 0 where
/// none did.
pub proof fn law_an_exit_code_counts_failures(steps: Seq<StepReportView>, i: int, j: int)
    requires
        0 <= i < steps.len(),
        0 <= j < steps.len(),
    ensures
        steps[i].outcome is Failed ==> exit_code_of(status_of(steps)) > 0,
        steps[i].outcome is Failed && steps[j].outcome !is Failed ==> exit_code_of(
            status_of(steps),
        ) == 1,
        (forall|k: int| 0 <= k < steps.len() ==> (#[trigger] steps[k]).outcome is Failed)
            ==> exit_code_of(status_of(steps)) == 2,
        (forall|k: int| 0 <= k < steps.len() ==> (#[trigger] steps[k]).outcome !is Failed)
            ==> exit_code_of(status_of(steps)) == 0,
        status_of(steps) == ApplyStatus::AllConfirmed <==> forall|k: int|
            0 <= k < steps.len() ==> (#[trigger] steps[k]).outcome is StoredByMonitor,
{
    assert(step_failed(steps[i]) == (steps[i].outcome is Failed));
    assert(step_failed(steps[j]) == (steps[j].outcome is Failed));
    if forall|k: int| 0 <= k < steps.len() ==> (#[trigger] steps[k]).outcome is Failed {
        assert forall|k: int| 0 <= k < steps.len() implies #[trigger] step_failed(steps[k]) by {
            assert(steps[k].outcome is Failed);
        }
    }
    if all_stored(steps) {
        assert(steps[i].outcome is StoredByMonitor);
        assert forall|k: int| 0 <= k < steps.len() implies !#[trigger] step_failed(steps[k]) by {
            assert(steps[k].outcome is StoredByMonitor);
        }
    }
    if forall|k: int| 0 <= k < steps.len() ==> (#[trigger] steps[k]).outcome !is Failed {
        assert forall|k: int| 0 <= k < steps.len() implies !#[trigger] step_failed(steps[k]) by {
            assert(steps[k].outcome !is Failed);
        }
        assert(!all_failed(steps));
    }
}

/// Every plan of several is carried out and reported, in order: its exchanges
/// stand together behind those of the plans before it.
pub proof fn law_every_plan_is_carried_out(
    plans: Seq<PlannedSetView>,
    opts: ExecOptions,
    answers: Seq<Answers>,
    k: int,
) -> (at: int)
    requires
        0 <= k < plans.len(),
        answers.len() == plans.len(),
    ensures
        set_reports(plans, opts, answers).len() == plans.len(),
        set_reports(plans, opts, answers)[k] == set_report(plans[k], opts, answers[k]),
        0 <= at,
        at + exchanges(plans[k], opts, answers[k]).len() <= all_exchanges(
            plans,
            opts,
            answers,
        ).len(),
        all_exchanges(plans, opts, answers).subrange(
            at,
            at + exchanges(plans[k], opts, answers[k]).len(),
        ) == exchanges(plans[k], opts, answers[k]),
{
    lemma_exchanges_in_turn(plans, opts, answers, k)
}

proof fn lemma_exchanges_in_turn(
    plans: Seq<PlannedSetView>,
    opts: ExecOptions,
    answers: Seq<Answers>,
    k: int,
) -> (at: int)
    requires
        0 <= k < plans.len(),
    ensures
        0 <= at,
        at + exchanges(plans[k], opts, answers[k]).len() <= all_exchanges(
            plans,
            opts,
            answers,
        ).len(),
        all_exchanges(plans, opts, answers).subrange(
            at,
            at + exchanges(plans[k], opts, answers[k]).len(),
        ) == exchanges(plans[k], opts, answers[k]),
    decreases plans.len(),
{
    let last = plans.len() - 1;
    let front = all_exchanges(plans.take(last), opts, answers);
    let all = all_exchanges(plans, opts, answers);
    let here = exchanges(plans[k], opts, answers[k]);
    if k == last {
        assert(all.subrange(front.len() as int, (front.len() + here.len()) as int) =~= here);
        front.len() as int
    } else {
        let at = lemma_exchanges_in_turn(plans.take(last), opts, answers, k);
        assert(plans.take(last)[k] == plans[k]);
        assert(all.subrange(at, at + here.len()) =~= front.subrange(at, at + here.len()));
        at
    }
}

/// A toggle goes to the second input only from the first one; from anywhere
/// else, and where nothing is known, it goes to the first.
pub proof fn law_a_toggle_goes_to_the_first_unless_it_is_there(
    reported: Option<InputCode>,
    first: InputCode,
    second: InputCode,
)
    ensures
        reported == Some(first) ==> toggled(reported, first, second) == second,
        reported != Some(first) ==> toggled(reported, first, second) == first,
{
}

/// A request is a repeat where the same one was made less than the window ago,
/// or, by a clock that was set back, later than now.
pub proof fn law_a_repeat_is_within_the_window(
    last: LastRequestView,
    request: Seq<char>,
    at: u64,
    now: int,
    window: int,
)
    requires
        last.request == Some(request),
        last.at_unix_ms == Some(at),
    ensures
        now >= at ==> (last.repeated_at(request, now, window) <==> now < at + window),
        now < at ==> (last.repeated_at(request, now, window) <==> window > 0),
{
}

/// A plan reaches the panel that was named: where keys are distinct, the handle
/// is that of a display which speaks DDC/CI, stands on the connection that was
/// recorded for the named monitor and has its serial.
pub proof fn law_a_plan_reaches_the_panel_that_was_named(
    config: ConfigView,
    detected: Seq<DetectedMonitorView>,
    name: Seq<char>,
    code: InputCode,
)
    requires
        planned(config, detected, name, code) is Ok,
        forall|i: int, j: int|
            0 <= i < j < config.monitors.len() ==> (#[trigger] config.monitors[i]).key != (
            #[trigger] config.monitors[j]).key,
    ensures
        ({
            let p = planned(config, detected, name, code)->Ok_0;
            exists|i: int, d: int|
                #![trigger config.monitors[i], detected[d]]
                {
                    &&& 0 <= i < config.monitors.len()
                    &&& 0 <= d < detected.len()
                    &&& is_asked_for(config.monitors[i], name)
                    &&& p.key == config.monitors[i].key
                    &&& detected[d].identity.transport is DdcCi
                    &&& detected[d].identity.backend_id == config.monitors[i].backend_id
                    &&& config.monitors[i].serial is Some ==> detected[d].identity.serial
                        == config.monitors[i].serial
                    &&& p.handle.backend_id == detected[d].identity.backend_id
                    &&& p.handle.serial == detected[d].identity.serial
                }
        }),
{
    let ms = config.monitors;
    let p = planned(config, detected, name, code)->Ok_0;
    law_a_plan_is_for_the_monitor_that_was_named(config, detected, name, code);
    law_a_plan_addresses_a_bound_display(config, detected, name, code);
    let i = choose|i: int|
        0 <= i < ms.len() && is_asked_for(#[trigger] ms[i], name) && p.key == ms[i].key;
    let k = choose|k: int|
        0 <= k < ms.len() && (#[trigger] ms[k]).key == p.key && (resolution(
            ms[k],
            detected,
        ) matches Ok(b) && p.handle == b.detected.handle());
    if i < k {
        assert(ms[i].key != ms[k].key);
    }
    if k < i {
        assert(ms[k].key != ms[i].key);
    }
    law_a_binding_names_exactly_one_display(ms[k], detected);
    let b = resolution(ms[k], detected)->Ok_0;
    let d = choose|d: int| 0 <= d < detected.len() && detected[d] == b.detected;
    assert(detected[d] == b.detected && ms[i] == ms[k]);
}

} // verus!

//! Windows backend: a process adapter over `PowerToys.PowerDisplay.Cli.exe`.
//!
//! Monitors are always addressed by `--monitor-id`, never by `--monitor-number`.
//! Numbers are reassigned when displays sleep, when the dock re-enumerates, or
//! when a cable is replugged, and an off-by-one there means writing an input
//! code to the wrong screen.
//!
//! Identity is corroborated with the EDID serial read from the registry,
//! because the PowerToys id is derived from the DevicePath and therefore
//! follows the GPU output port rather than the panel plugged into it.

use vstd::prelude::*;

use crate::backend::{
    capabilities_result, monitors_result, reading_answer, write_answer, BackendError,
    BackendErrorView, BackendHealth, BackendHealthView, HealthFinding, HealthFindingView,
};
use crate::console::{power_display_changes, Console, PowerDisplayConsole, ToolCall};
use crate::digits::{dec, decimal};
use crate::edid::{EdidInfo, EdidInfoView};
use crate::paths::{join_path, joins};
use crate::powertoys_parse::{
    capabilities_in, list_of, parse_capabilities, parse_get, parse_list, settings_of, ListRow,
    ListRowView,
};
use crate::proc::{run_answer, CommandRun, CommandRunView, ProcError};
use crate::runner::{
    asked_so, call, came_back, command_result, count_reachable, label_all, labelled_all, nameless,
    one_arg, reachable, text_result, understand_run, with_args, RunAnswer,
};
use crate::text::{
    cat2, cat3, cat4, chars_of, contains_str, copy_opt, has_text, join, joined, lowercase, opt_text,
    same, texts, trim_str, trimmed,
};
use crate::types::{
    code_in, code_text, law_code_text_reads_back, DetectedMonitor, DetectedMonitorView,
    InputCapabilities, InputCapabilitiesView, InputCode, InputCodeParseErrorView, InputReading,
    InputReadingView, MonitorHandle, MonitorHandleView, MonitorIdentity,
    MonitorIdentityView, Transport, TransportView, WriteOutcome, WriteOutcomeView,
};

verus! {

/// The CLI version this adapter was developed against.
pub const TESTED_VERSION: &'static str = "0.101.2362.0";

pub const EXE_NAME: &'static str = "PowerToys.PowerDisplay.Cli";

/// How many times to attempt a write the monitor has explicitly rejected.
///
/// These panels intermittently answer a perfectly good `setvcp` with
/// "hardware write failed"; the same command a few seconds later succeeds.
/// Three attempts turns that from a visible failure into a slightly slow
/// switch.
pub const WRITE_ATTEMPTS: usize = 3;

/// How long to wait between attempts, in milliseconds.
pub const WRITE_RETRY_DELAY_MS: u64 = 400;

pub open spec fn not_running_hint() -> Seq<char> {
    "Start PowerToys and enable the Power Display module, then try again."@
}

fn not_running_hint_text() -> (r: &'static str)
    ensures
        r@ == not_running_hint(),
{
    "Start PowerToys and enable the Power Display module, then try again."
}

// ---------------------------------------------------------------------------
// Failures
// ---------------------------------------------------------------------------

/// Whether the tool tells that the write never reached the monitor. `lower` is
/// its output in small letters.
pub open spec fn write_never_arrived(lower: Seq<char>) -> bool {
    has_text(lower, "hardware write failed"@) || has_text(lower, "failed to set vcp"@)
}

pub open spec fn whole_output(run: CommandRunView) -> Seq<char> {
    run.stdout + "\n"@ + run.stderr
}

/// Whether a failed write is known not to have arrived.
pub open spec fn definite_write_failure(run: CommandRunView) -> bool {
    write_never_arrived(lowercase(whole_output(run)))
}

/// Whether output in small letters tells that the write never arrived.
pub fn tells_write_failure(lower: &str) -> (r: bool)
    ensures
        r == write_never_arrived(lower@),
{
    let l = chars_of(lower);
    contains_str(l.as_slice(), "hardware write failed") || contains_str(
        l.as_slice(),
        "failed to set vcp",
    )
}

/// Whether the tool is telling that the write never reached the monitor.
///
/// Only these failures are safe to repeat. Anything vaguer could mean the
/// write was accepted and the reply was lost, and repeating an input switch
/// in that state is how a monitor ends up somewhere nobody asked for.
pub fn is_definite_write_failure(run: &CommandRun) -> (r: bool)
    ensures
        r == definite_write_failure(run.deep_view()),
{
    let text = cat3(run.stdout.as_str(), "\n", run.stderr.as_str());
    tells_write_failure(text.as_str().to_lowercase().as_str())
}

/// What a failed command means. `lower` is its error output in small letters.
pub open spec fn failure_of(run: CommandRunView, lower: Seq<char>) -> BackendErrorView {
    let stderr = trimmed(run.stderr);
    if has_text(lower, "no monitor found"@) {
        BackendErrorView::MonitorNotFound { detail: stderr }
    } else if has_text(lower, "not running"@) || (has_text(lower, "power display"@) && has_text(
        lower,
        "enable"@,
    )) {
        BackendErrorView::ToolNotReady {
            tool: "PowerToys Power Display"@,
            detail: stderr + ". "@ + not_running_hint(),
        }
    } else {
        BackendErrorView::CommandFailed { command: run.command(), status: run.status, stderr }
    }
}

pub open spec fn classified(run: CommandRunView) -> BackendErrorView {
    failure_of(run, lowercase(trimmed(run.stderr)))
}

/// What a failed command means, given its error output in small letters.
pub fn classify_lowered(run: &CommandRun, lower: &str) -> (r: BackendError)
    ensures
        r.deep_view() == failure_of(run.deep_view(), lower@),
{
    let stderr = trim_str(run.stderr.as_str());
    let l = chars_of(lower);
    let l = l.as_slice();
    if contains_str(l, "no monitor found") {
        return BackendError::MonitorNotFound { detail: stderr };
    }
    if contains_str(l, "not running") || (contains_str(l, "power display") && contains_str(
        l,
        "enable",
    )) {
        return BackendError::ToolNotReady {
            tool: "PowerToys Power Display".to_owned(),
            detail: cat3(stderr.as_str(), ". ", not_running_hint_text()),
        };
    }
    BackendError::CommandFailed { command: run.display_command(), status: run.status, stderr }
}

/// What a failed command means.
pub fn classify_failure(run: &CommandRun) -> (r: BackendError)
    ensures
        r.deep_view() == classified(run.deep_view()),
{
    let stderr = trim_str(run.stderr.as_str());
    classify_lowered(run, stderr.as_str().to_lowercase().as_str())
}

/// How a monitor is reached, by the method the list names.
pub open spec fn transport_named(method: Seq<char>) -> TransportView {
    if method == "DDC/CI"@ {
        TransportView::DdcCi
    } else if method == "WMI"@ {
        TransportView::Wmi
    } else {
        TransportView::Other(method)
    }
}

/// How a monitor is reached, by the method the list names.
pub fn transport_from_method(method: &str) -> (r: Transport)
    ensures
        r.deep_view() == transport_named(method@),
{
    if same(method, "DDC/CI") {
        Transport::DdcCi
    } else if same(method, "WMI") {
        Transport::Wmi
    } else {
        Transport::Other(method.to_owned())
    }
}

// ---------------------------------------------------------------------------
// What answers mean
// ---------------------------------------------------------------------------

/// A command that succeeded.
pub open spec fn succeeded(answer: RunAnswer) -> Result<CommandRunView, BackendErrorView> {
    match came_back(answer) {
        Ok(run) => if run.success() {
            Ok(run)
        } else {
            Err(classified(run))
        },
        Err(e) => Err(e),
    }
}

pub open spec fn version_from(answer: RunAnswer) -> Result<Seq<char>, BackendErrorView> {
    match succeeded(answer) {
        Ok(run) => Ok(trimmed(run.stdout)),
        Err(e) => Err(e),
    }
}

pub open spec fn unexpected(run: CommandRunView, detail: Seq<char>) -> BackendErrorView {
    BackendErrorView::UnexpectedOutput { command: run.command(), detail, raw: run.stdout }
}

/// The rows, from the answer to `list`.
pub open spec fn rows_from(answer: RunAnswer) -> Result<Seq<ListRowView>, BackendErrorView> {
    match succeeded(answer) {
        Ok(run) => match list_of(run.stdout) {
            Ok(rows) => Ok(rows),
            Err(e) => Err(unexpected(run, e.message())),
        },
        Err(e) => Err(e),
    }
}

/// A row as the rest of the library sees it, with what the panel's EDID says.
pub open spec fn monitor_from(row: ListRowView, edid: Option<EdidInfoView>) -> DetectedMonitorView {
    DetectedMonitorView {
        identity: MonitorIdentityView {
            backend_id: row.id,
            discovery_index: Some(row.number),
            manufacturer: match edid {
                Some(e) => e.manufacturer,
                None => None,
            },
            model: match row.name {
                Some(n) => Some(n),
                None => match edid {
                    Some(e) => e.model_name,
                    None => None,
                },
            },
            serial: match edid {
                Some(e) => e.best_serial(),
                None => None,
            },
            transport: transport_named(row.method),
        },
        raw: row.raw,
    }
}

/// What the answer to `capabilities` lists.
pub open spec fn capabilities_from(answer: RunAnswer) -> Result<
    InputCapabilitiesView,
    BackendErrorView,
> {
    match succeeded(answer) {
        Err(e) => Err(e),
        Ok(run) => match capabilities_in(run.stdout) {
            Ok(parsed) => Ok(
                InputCapabilitiesView {
                    feature_present: parsed.feature_present,
                    options: labelled_all(parsed.options),
                    raw_capabilities: parsed.raw_capabilities,
                    raw_output: run.stdout,
                },
            ),
            Err(e) => Err(unexpected(run, e.message())),
        },
    }
}

/// The reading that an answer to `get` is. A monitor that cannot be addressed
/// at all is a caller error; anything else is a read that did not work this
/// time.
pub open spec fn reading_from(answer: RunAnswer) -> Result<InputReadingView, BackendErrorView> {
    match came_back(answer) {
        Err(e) => Err(e),
        Ok(run) => if !run.success() {
            match classified(run) {
                BackendErrorView::MonitorNotFound { detail } => Err(
                    BackendErrorView::MonitorNotFound { detail },
                ),
                other => Ok(InputReadingView::ReadFailed { detail: other.message() }),
            }
        } else {
            match settings_of(run.stdout) {
                Ok(parsed) => Ok(
                    match parsed.input_source {
                        Some(code) => InputReadingView::Value(code),
                        None => InputReadingView::Unsupported,
                    },
                ),
                Err(e) => Err(unexpected(run, e.message())),
            }
        },
    }
}

/// What one attempt at a write came to: a result, or that it may be tried
/// again.
pub enum Attempt {
    Done(Result<WriteOutcomeView, BackendErrorView>),
    Again(BackendErrorView),
}

pub open spec fn attempt_of(answer: RunAnswer) -> Attempt {
    match came_back(answer) {
        Err(e) => Attempt::Done(Err(e)),
        Ok(run) => if run.success() {
            // Deliberately not "switched": exit zero means the DDC write was
            // dispatched, nothing more.
            Attempt::Done(Ok(WriteOutcomeView::Accepted))
        } else {
            match classified(run) {
                BackendErrorView::MonitorNotFound { detail } => Attempt::Done(
                    Err(BackendErrorView::MonitorNotFound { detail }),
                ),
                e => if definite_write_failure(run) {
                    Attempt::Again(e)
                } else {
                    Attempt::Done(Ok(WriteOutcomeView::Failed { detail: e.message() }))
                },
            }
        },
    }
}

/// What attempts at a write come to, by the last of them.
pub open spec fn write_result(answers: Seq<RunAnswer>) -> Result<
    WriteOutcomeView,
    BackendErrorView,
> {
    match attempt_of(answers.last()) {
        Attempt::Done(r) => r,
        Attempt::Again(e) => Ok(
            WriteOutcomeView::Failed { detail: e.message() + " (after 3 attempts)"@ },
        ),
    }
}

pub open spec fn capabilities_args(id: Seq<char>) -> Seq<Seq<char>> {
    seq!["capabilities"@, "--monitor-id"@, id, "--setting"@, "input-source"@]
}

pub open spec fn read_args(id: Seq<char>) -> Seq<Seq<char>> {
    seq!["get"@, "--monitor-id"@, id, "--setting"@, "input-source"@]
}

pub open spec fn write_args(id: Seq<char>, value: InputCode) -> Seq<Seq<char>> {
    seq!["set"@, "--monitor-id"@, id, "--input-source"@, code_text(value)]
}

/// What is done to write an input: the same command for each attempt, with a
/// wait between two of them.
pub open spec fn write_calls(id: Seq<char>, value: InputCode, answers: Seq<RunAnswer>) -> Seq<
    ToolCall,
>
    decreases answers.len(),
{
    if answers.len() == 0 {
        Seq::empty()
    } else {
        let front = write_calls(id, value, answers.drop_last());
        let waited = if answers.len() == 1 {
            front
        } else {
            front.push(ToolCall::Waited(WRITE_RETRY_DELAY_MS))
        };
        waited.push(
            ToolCall::Wrote {
                id,
                code: value,
                args: write_args(id, value),
                answer: answers.last(),
            },
        )
    }
}

/// Attempts that were made in turn: each but the last is known not to have
/// arrived, and there were no more than three.
pub open spec fn attempts(answers: Seq<RunAnswer>) -> bool {
    &&& 1 <= answers.len() <= WRITE_ATTEMPTS
    &&& forall|i: int|
        0 <= i < answers.len() - 1 ==> attempt_of(#[trigger] answers[i]) is Again
    &&& attempt_of(answers.last()) is Again ==> answers.len() == WRITE_ATTEMPTS
}

/// A write was tried like this, and nothing else was done.
pub open spec fn write_tried(
    before: Seq<ToolCall>,
    after: Seq<ToolCall>,
    handle: MonitorHandleView,
    value: InputCode,
    answers: Seq<RunAnswer>,
    result: Result<WriteOutcomeView, BackendErrorView>,
) -> bool {
    &&& attempts(answers)
    &&& after == before + write_calls(handle.backend_id, value, answers)
    &&& result == write_result(answers)
}

// ---------------------------------------------------------------------------
// The adapter
// ---------------------------------------------------------------------------

#[derive(Debug)]
pub struct PowerDisplayBackend {
    exe: String,
}

pub open spec fn opt_edid(o: Option<EdidInfo>) -> Option<EdidInfoView> {
    match o {
        Some(e) => Some(e.deep_view()),
        None => None,
    }
}

/// `lookup` was asked for the EDID of a device path and answered this.
pub open spec fn looked_up<E: Fn(&String) -> Option<EdidInfo>>(
    lookup: E,
    path: Seq<char>,
    answer: Option<EdidInfoView>,
) -> bool {
    exists|p: String, out: Option<EdidInfo>|
        p@ == path && opt_edid(out) == answer && #[trigger] call_ensures(lookup, (&p,), out)
}

/// What is asked to list the displays, in order: the list, and the EDID of each
/// of its rows.
pub open spec fn list_calls(answer: RunAnswer, edids: Seq<Option<EdidInfoView>>) -> Seq<ToolCall> {
    seq![ToolCall::Ran(seq!["list"@], answer)] + match rows_from(answer) {
        Err(_) => Seq::empty(),
        Ok(rows) => Seq::new(
            rows.len(),
            |i: int| ToolCall::Identified(rows[i].id, edids[i]),
        ),
    }
}

/// The displays that come of it.
pub open spec fn list_result(answer: RunAnswer, edids: Seq<Option<EdidInfoView>>) -> Result<
    Seq<DetectedMonitorView>,
    BackendErrorView,
> {
    match rows_from(answer) {
        Err(e) => Err(e),
        Ok(rows) => Ok(Seq::new(rows.len(), |i: int| monitor_from(rows[i], edids[i]))),
    }
}

/// The displays were asked for like this, and nothing else was done: `edids`
/// are the answers to the lookups, row by row.
pub open spec fn discovered(
    before: Seq<ToolCall>,
    after: Seq<ToolCall>,
    answer: RunAnswer,
    edids: Seq<Option<EdidInfoView>>,
    result: Result<Seq<DetectedMonitorView>, BackendErrorView>,
) -> bool {
    &&& after == before + list_calls(answer, edids)
    &&& result == list_result(answer, edids)
}

/// Commands that only ask.
pub proof fn lemma_asks(id: Seq<char>)
    ensures
        !power_display_changes(seq!["--version"@]),
        !power_display_changes(seq!["list"@]),
        !power_display_changes(capabilities_args(id)),
        !power_display_changes(read_args(id)),
{
    reveal_strlit("set");
    reveal_strlit("get");
    reveal_strlit("list");
    reveal_strlit("--version");
    reveal_strlit("capabilities");
    assert("set"@[0] != "get"@[0]);
}

fn call_ok<C: Console>(console: &mut C, args: &Vec<String>) -> (r: Result<CommandRun, BackendError>)
    requires
        !C::changes(texts(args@)),
    ensures
        exists|answer: RunAnswer|
            #[trigger] asked_so(
                old(console).calls(),
                final(console).calls(),
                texts(args@),
                answer,
            ) && command_result(r) == succeeded(answer),
{
    match call(console, args) {
        Ok(done) => {
            if done.success() {
                Ok(done)
            } else {
                Err(classify_failure(&done))
            }
        },
        Err(e) => Err(e),
    }
}

fn to_monitor(row: &ListRow, edid: &Option<EdidInfo>) -> (r: DetectedMonitor)
    ensures
        r.deep_view() == monitor_from(row.deep_view(), opt_edid(*edid)),
{
    let manufacturer: Option<String> = match edid {
        Some(e) => copy_opt(&e.manufacturer),
        None => None,
    };
    let model: Option<String> = match &row.name {
        Some(n) => Some(n.clone()),
        None => match edid {
            Some(e) => copy_opt(&e.model_name),
            None => None,
        },
    };
    let serial: Option<String> = match edid {
        Some(e) => e.best_serial(),
        None => None,
    };
    DetectedMonitor {
        identity: MonitorIdentity {
            backend_id: row.id.clone(),
            discovery_index: Some(row.number),
            manufacturer,
            model,
            serial,
            transport: transport_from_method(row.method.as_str()),
        },
        raw: row.raw.clone(),
    }
}

/// What it means to look for the executable.
pub open spec fn located(
    explicit: Option<Seq<char>>,
    is_file: bool,
    found: Option<Seq<char>>,
    dirs: Seq<Seq<char>>,
) -> Result<Seq<char>, BackendErrorView> {
    match explicit {
        Some(p) => if is_file {
            Ok(p)
        } else {
            Err(
                BackendErrorView::ToolNotFound {
                    tool: p,
                    hint: "The `tool_path` in config.toml does not point at a file."@,
                },
            )
        },
        None => match found {
            Some(p) => Ok(p),
            None => Err(
                BackendErrorView::ToolNotFound {
                    tool: EXE_NAME@,
                    hint: "Looked in PATH and "@ + joined(dirs, ", "@)
                        + ". Install PowerToys, or set `tool_path` in config.toml."@,
                },
            ),
        },
    }
}

impl PowerDisplayBackend {
    /// The executable that is run.
    pub closed spec fn program(&self) -> Seq<char> {
        self.exe@
    }

    pub fn new(exe: String) -> (r: Self)
        ensures
            r.program() == exe@,
    {
        PowerDisplayBackend { exe }
    }

    pub fn exe(&self) -> (r: &str)
        ensures
            r@ == self.program(),
    {
        self.exe.as_str()
    }

    pub fn name(&self) -> (r: &'static str)
        ensures
            r@ == "powertoys-cli"@,
    {
        "powertoys-cli"
    }

    /// Where PowerToys installs the CLI, in preference order, under each base
    /// directory.
    pub fn candidate_dirs(bases: &Vec<String>) -> (r: Vec<String>)
        ensures
            r@.len() == 2 * bases@.len(),
            forall|i: int|
                0 <= i < bases@.len() ==> {
                    &&& joins(texts(r@)[2 * i + 1], (#[trigger] texts(bases@)[i]), "PowerToys"@)
                    &&& joins(texts(r@)[2 * i], texts(r@)[2 * i + 1], "WinUI3Apps"@)
                },
    {
        proof {
            reveal_strlit(".");
            reveal_strlit("..");
            reveal_strlit("PowerToys");
            reveal_strlit("WinUI3Apps");
            assert("PowerToys"@.len() > 2 && "WinUI3Apps"@.len() > 2);
        }
        let mut dirs: Vec<String> = Vec::new();
        let mut i: usize = 0;
        while i < bases.len()
            invariant
                i <= bases.len(),
                dirs@.len() == 2 * i,
                crate::paths::relative_name("PowerToys"@),
                crate::paths::relative_name("WinUI3Apps"@),
                forall|k: int|
                    0 <= k < i ==> {
                        &&& joins(
                            texts(dirs@)[2 * k + 1],
                            (#[trigger] texts(bases@)[k]),
                            "PowerToys"@,
                        )
                        &&& joins(texts(dirs@)[2 * k], texts(dirs@)[2 * k + 1], "WinUI3Apps"@)
                    },
            decreases bases.len() - i,
        {
            let ghost before = dirs@;
            let outer = join_path(bases[i].as_str(), "PowerToys");
            let inner = join_path(outer.as_str(), "WinUI3Apps");
            let ghost ov = outer@;
            let ghost iv = inner@;
            dirs.push(inner);
            dirs.push(outer);
            proof {
                assert(texts(dirs@) =~= texts(before).push(iv).push(ov));
                assert forall|k: int| 0 <= k < i + 1 implies {
                    &&& joins(texts(dirs@)[2 * k + 1], (#[trigger] texts(bases@)[k]), "PowerToys"@)
                    &&& joins(texts(dirs@)[2 * k], texts(dirs@)[2 * k + 1], "WinUI3Apps"@)
                } by {
                    if k < i {
                        assert(texts(dirs@)[2 * k] == texts(before)[2 * k]);
                        assert(texts(dirs@)[2 * k + 1] == texts(before)[2 * k + 1]);
                    } else {
                        assert(texts(dirs@)[2 * k] == iv);
                        assert(texts(dirs@)[2 * k + 1] == ov);
                    }
                }
            }
            i += 1;
        }
        dirs
    }

    /// Resolve the executable, preferring an explicit configured path.
    ///
    /// The path is never assumed to be on `PATH`: PowerToys does not put it
    /// there, and a shortcut runs with a different environment than a shell.
    /// `is_file` tells whether the configured path is a file, `found` what a
    /// search finds, `dirs` where it looked.
    pub fn locate(
        explicit: Option<&str>,
        is_file: bool,
        found: Option<String>,
        dirs: &Vec<String>,
    ) -> (r: Result<String, BackendError>)
        ensures
            text_result(r) == located(
                crate::types::opt_str(explicit),
                is_file,
                opt_text(found),
                texts(dirs@),
            ),
    {
        match explicit {
            Some(p) => {
                if is_file {
                    Ok(p.to_owned())
                } else {
                    Err(
                        BackendError::ToolNotFound {
                            tool: p.to_owned(),
                            hint: "The `tool_path` in config.toml does not point at a file.".to_owned(),
                        },
                    )
                }
            },
            None => match found {
                Some(p) => Ok(p),
                None => {
                    let list = join(dirs.as_slice(), ", ");
                    Err(
                        BackendError::ToolNotFound {
                            tool: EXE_NAME.to_owned(),
                            hint: cat3(
                                "Looked in PATH and ",
                                list.as_str(),
                                ". Install PowerToys, or set `tool_path` in config.toml.",
                            ),
                        },
                    )
                },
            },
        }
    }

    pub fn version<
        R: Fn(&Vec<String>) -> Result<CommandRun, ProcError>,
        E: Fn(&String) -> Option<EdidInfo>,
        P: Fn(u64),
    >(&self, console: &mut PowerDisplayConsole<R, E, P>) -> (r: Result<String, BackendError>)
        ensures
            exists|answer: RunAnswer|
                #[trigger] asked_so(
                    old(console).calls(),
                    final(console).calls(),
                    seq!["--version"@],
                    answer,
                ) && text_result(r) == version_from(answer),
    {
        proof {
            lemma_asks(Seq::empty());
        }
        match call_ok(console, &one_arg("--version")) {
            Ok(done) => Ok(trim_str(done.stdout.as_str())),
            Err(e) => Err(e),
        }
    }

    /// Lists the displays.
    pub fn discover<
        R: Fn(&Vec<String>) -> Result<CommandRun, ProcError>,
        E: Fn(&String) -> Option<EdidInfo>,
        P: Fn(u64),
    >(&self, console: &mut PowerDisplayConsole<R, E, P>) -> (r: Result<
        Vec<DetectedMonitor>,
        BackendError,
    >)
        ensures
            exists|answer: RunAnswer, edids: Seq<Option<EdidInfoView>>|
                #[trigger] discovered(
                    old(console).calls(),
                    final(console).calls(),
                    answer,
                    edids,
                    monitors_result(r),
                ),
    {
        let ghost before = console.calls();
        proof {
            lemma_asks(Seq::empty());
        }
        let listed = call_ok(console, &one_arg("list"));
        let ghost at = console.calls();
        let ghost answer = choose|answer: RunAnswer|
            #[trigger] asked_so(before, at, seq!["list"@], answer) && command_result(listed)
                == succeeded(answer);
        let ghost none: Seq<Option<EdidInfoView>> = Seq::empty();
        let done = match listed {
            Ok(done) => done,
            Err(e) => {
                let r: Result<Vec<DetectedMonitor>, BackendError> = Err(e);
                assert(console.calls() =~= before + list_calls(answer, none));
                assert(discovered(before, console.calls(), answer, none, monitors_result(r)));
                return r;
            },
        };
        let rows = match parse_list(done.stdout.as_str()) {
            Ok(rows) => rows,
            Err(e) => {
                let r: Result<Vec<DetectedMonitor>, BackendError> = Err(
                    BackendError::UnexpectedOutput {
                        command: done.display_command(),
                        detail: e.to_string(),
                        raw: done.stdout.clone(),
                    },
                );
                assert(console.calls() =~= before + list_calls(answer, none));
                assert(discovered(before, console.calls(), answer, none, monitors_result(r)));
                return r;
            },
        };
        let ghost rs = rows.deep_view();
        let ghost mut edids: Seq<Option<EdidInfoView>> = Seq::empty();
        let mut out: Vec<DetectedMonitor> = Vec::new();
        let mut i: usize = 0;
        assert(out.deep_view() =~= Seq::new(0, |k: int| monitor_from(rs[k], edids[k])));
        while i < rows.len()
            invariant
                i <= rows.len(),
                rs == rows.deep_view(),
                edids.len() == i,
                console.calls() =~= at + Seq::new(
                    i as nat,
                    |k: int| ToolCall::Identified(rs[k].id, edids[k]),
                ),
                out.deep_view() == Seq::new(i as nat, |k: int| monitor_from(rs[k], edids[k])),
            decreases rows.len() - i,
        {
            let edid = console.identify(&rows[i].id);
            let ghost ev = opt_edid(edid);
            let ghost before_out = out.deep_view();
            out.push(to_monitor(&rows[i], &edid));
            proof {
                edids = edids.push(ev);
                assert(rs[i as int] == rows@[i as int].deep_view());
                assert(out.deep_view() =~= before_out.push(monitor_from(rs[i as int], ev)));
                assert(out.deep_view() =~= Seq::new(
                    (i + 1) as nat,
                    |k: int| monitor_from(rs[k], edids[k]),
                ));
            }
            i += 1;
        }
        let r: Result<Vec<DetectedMonitor>, BackendError> = Ok(out);
        assert(console.calls() =~= before + list_calls(answer, edids));
        assert(discovered(before, console.calls(), answer, edids, monitors_result(r)));
        r
    }

    pub fn input_capabilities<
        R: Fn(&Vec<String>) -> Result<CommandRun, ProcError>,
        E: Fn(&String) -> Option<EdidInfo>,
        P: Fn(u64),
    >(
        &self,
        monitor: &MonitorHandle,
        console: &mut PowerDisplayConsole<R, E, P>,
    ) -> (r: Result<InputCapabilities, BackendError>)
        ensures
            exists|answer: RunAnswer|
                #[trigger] asked_so(
                    old(console).calls(),
                    final(console).calls(),
                    capabilities_args(monitor.backend_id@),
                    answer,
                ) && capabilities_result(r) == capabilities_from(answer),
    {
        let none: Vec<String> = Vec::new();
        let args = with_args(
            &none,
            &[
                "capabilities",
                "--monitor-id",
                monitor.backend_id.as_str(),
                "--setting",
                "input-source",
            ],
        );
        proof {
            assert(texts(args@) =~= capabilities_args(monitor.backend_id@));
            lemma_asks(monitor.backend_id@);
        }
        match call_ok(console, &args) {
            Err(e) => Err(e),
            Ok(done) => match parse_capabilities(done.stdout.as_str()) {
                Err(e) => Err(
                    BackendError::UnexpectedOutput {
                        command: done.display_command(),
                        detail: e.to_string(),
                        raw: done.stdout.clone(),
                    },
                ),
                Ok(parsed) => Ok(
                    InputCapabilities {
                        feature_present: parsed.feature_present,
                        options: label_all(&parsed.options),
                        raw_capabilities: copy_opt(&parsed.raw_capabilities),
                        raw_output: done.stdout.clone(),
                    },
                ),
            },
        }
    }

    pub fn read_input<
        R: Fn(&Vec<String>) -> Result<CommandRun, ProcError>,
        E: Fn(&String) -> Option<EdidInfo>,
        P: Fn(u64),
    >(
        &self,
        monitor: &MonitorHandle,
        console: &mut PowerDisplayConsole<R, E, P>,
    ) -> (r: Result<InputReading, BackendError>)
        ensures
            exists|answer: RunAnswer|
                #[trigger] asked_so(
                    old(console).calls(),
                    final(console).calls(),
                    read_args(monitor.backend_id@),
                    answer,
                ) && reading_answer(r) == reading_from(answer),
    {
        let none: Vec<String> = Vec::new();
        let args = with_args(
            &none,
            &[
                "get",
                "--monitor-id",
                monitor.backend_id.as_str(),
                "--setting",
                "input-source",
            ],
        );
        proof {
            assert(texts(args@) =~= read_args(monitor.backend_id@));
            lemma_asks(monitor.backend_id@);
        }
        let done = match call(console, &args) {
            Ok(done) => done,
            Err(e) => {
                return Err(e);
            },
        };
        understand_reading(&done)
    }

    /// Writes an input.
    ///
    /// Retrying a write that might have been accepted is the one thing that is
    /// not done, because a second input switch during re-enumeration compounds
    /// the disconnect. The exception is a write that the tool says did not
    /// reach the monitor: nothing is in flight to compound.
    pub fn set_input<
        R: Fn(&Vec<String>) -> Result<CommandRun, ProcError>,
        E: Fn(&String) -> Option<EdidInfo>,
        P: Fn(u64),
    >(
        &self,
        monitor: &MonitorHandle,
        value: InputCode,
        console: &mut PowerDisplayConsole<R, E, P>,
    ) -> (r: Result<WriteOutcome, BackendError>)
        ensures
            exists|answers: Seq<RunAnswer>|
                #[trigger] write_tried(
                    old(console).calls(),
                    final(console).calls(),
                    monitor.deep_view(),
                    value,
                    answers,
                    write_answer(r),
                ),
    {
        let ghost h = monitor.deep_view();
        let ghost before = console.calls();
        let code = value.to_string();
        let none: Vec<String> = Vec::new();
        let args = with_args(
            &none,
            &[
                "set",
                "--monitor-id",
                monitor.backend_id.as_str(),
                "--input-source",
                code.as_str(),
            ],
        );
        assert(texts(args@) =~= write_args(h.backend_id, value));
        let ghost mut answers: Seq<RunAnswer> = Seq::empty();
        let ghost mut waited: Seq<ToolCall> = Seq::empty();
        let mut attempt: usize = 1;
        assert(console.calls() =~= before + write_calls(h.backend_id, value, answers) + waited);
        loop
            invariant
                1 <= attempt <= WRITE_ATTEMPTS,
                before == old(console).calls(),
                h == monitor.deep_view(),
                texts(args@) == write_args(h.backend_id, value),
                answers.len() == attempt - 1,
                forall|i: int|
                    0 <= i < answers.len() ==> attempt_of(#[trigger] answers[i]) is Again,
                waited == (if answers.len() == 0 {
                    Seq::empty()
                } else {
                    seq![ToolCall::Waited(WRITE_RETRY_DELAY_MS)]
                }),
                console.calls() == before + write_calls(h.backend_id, value, answers) + waited,
            decreases WRITE_ATTEMPTS - attempt,
        {
            let raw = console.write(&args, monitor.backend_id.as_str(), value);
            proof {
                let earlier = answers;
                answers = answers.push(run_answer(raw));
                assert(answers.drop_last() =~= earlier);
                assert(console.calls() =~= before + write_calls(h.backend_id, value, answers));
            }
            let done = match understand_run(raw) {
                Ok(done) => done,
                Err(e) => {
                    let r: Result<WriteOutcome, BackendError> = Err(e);
                    assert(write_tried(
                        before,
                        console.calls(),
                        h,
                        value,
                        answers,
                        write_answer(r),
                    ));
                    return r;
                },
            };
            match judge_attempt(&done) {
                Ok(r) => {
                    assert(write_tried(
                        before,
                        console.calls(),
                        h,
                        value,
                        answers,
                        write_answer(r),
                    ));
                    return r;
                },
                Err(error) => {
                    if attempt == WRITE_ATTEMPTS {
                        let r: Result<WriteOutcome, BackendError> = Ok(
                            WriteOutcome::Failed {
                                detail: cat2(error.to_string().as_str(), " (after 3 attempts)"),
                            },
                        );
                        assert(write_tried(
                            before,
                            console.calls(),
                            h,
                            value,
                            answers,
                            write_answer(r),
                        ));
                        return r;
                    }
                    console.wait(WRITE_RETRY_DELAY_MS);
                    proof {
                        waited = seq![ToolCall::Waited(WRITE_RETRY_DELAY_MS)];
                        assert(console.calls() =~= before + write_calls(
                            h.backend_id,
                            value,
                            answers,
                        ) + waited);
                    }
                    attempt += 1;
                },
            }
        }
    }

    /// The findings of a health check.
    pub fn health(
        &self,
        version: Result<String, BackendError>,
        monitors: Result<Vec<DetectedMonitor>, BackendError>,
    ) -> (r: BackendHealth)
        ensures
            r.deep_view() == (BackendHealthView {
                backend: "powertoys-cli"@,
                tool_path: Some(self.program()),
                tool_version: match text_result(version) {
                    Ok(v) => Some(v),
                    Err(_) => None,
                },
                findings: seq![version_finding(text_result(version))] + monitor_findings(
                    monitors_result(monitors),
                ),
            }),
    {
        let mut findings: Vec<HealthFinding> = Vec::new();
        let mut tool_version: Option<String> = None;
        let ghost vr = text_result(version);
        match version {
            Ok(v) => {
                if same(v.as_str(), TESTED_VERSION) {
                    findings.push(
                        HealthFinding::info(
                            cat3(
                                "PowerToys Power Display CLI ",
                                v.as_str(),
                                " (a version this build was tested against)",
                            ).as_str(),
                        ),
                    );
                } else {
                    findings.push(
                        HealthFinding::warn(
                            crate::text::cat5(
                                "PowerToys Power Display CLI is ",
                                v.as_str(),
                                "; this build was tested against ",
                                TESTED_VERSION,
                                ".",
                            ).as_str(),
                            "Output parsing is strict, so a changed format will fail loudly rather than silently. Re-capture the fixtures in tests/fixtures/powertoys/ if anything breaks.",
                        ),
                    );
                }
                tool_version = Some(v);
            },
            Err(e) => {
                findings.push(
                    HealthFinding::blocker(
                        cat2(
                            "Could not run the Power Display CLI: ",
                            e.to_string().as_str(),
                        ).as_str(),
                        not_running_hint_text(),
                    ),
                );
            },
        }
        assert(findings.deep_view() =~= seq![version_finding(vr)]);
        let ghost first = findings.deep_view();
        let mut about_monitors = find_monitors(&monitors);
        let ghost second = about_monitors.deep_view();
        findings.append(&mut about_monitors);
        assert(findings.deep_view() =~= first + second);
        BackendHealth {
            backend: self.name().to_owned(),
            tool_path: Some(self.exe.clone()),
            tool_version,
            findings,
        }
    }
}

/// The reading that a completed `get` is.
pub fn understand_reading(done: &CommandRun) -> (r: Result<InputReading, BackendError>)
    ensures
        reading_answer(r) == reading_from(Ok(done.deep_view())),
{
    if !done.success() {
        return match classify_failure(done) {
            BackendError::MonitorNotFound { detail } => Err(
                BackendError::MonitorNotFound { detail },
            ),
            other => Ok(InputReading::ReadFailed { detail: other.to_string() }),
        };
    }
    match parse_get(done.stdout.as_str()) {
        Ok(parsed) => Ok(
            match parsed.input_source {
                Some(code) => InputReading::Value(code),
                None => InputReading::Unsupported,
            },
        ),
        Err(e) => Err(
            BackendError::UnexpectedOutput {
                command: done.display_command(),
                detail: e.to_string(),
                raw: done.stdout.clone(),
            },
        ),
    }
}

/// What a completed `set` says: a result, or an error after which the write
/// may be tried again.
pub fn judge_attempt(done: &CommandRun) -> (r: Result<
    Result<WriteOutcome, BackendError>,
    BackendError,
>)
    ensures
        match r {
            Ok(w) => attempt_of(Ok(done.deep_view())) == Attempt::Done(write_answer(w)),
            Err(e) => attempt_of(Ok(done.deep_view())) == Attempt::Again(e.deep_view()),
        },
{
    if done.success() {
        return Ok(Ok(WriteOutcome::Accepted));
    }
    match classify_failure(done) {
        BackendError::MonitorNotFound { detail } => Ok(
            Err(BackendError::MonitorNotFound { detail }),
        ),
        e => {
            if is_definite_write_failure(done) {
                Err(e)
            } else {
                Ok(Ok(WriteOutcome::Failed { detail: e.to_string() }))
            }
        },
    }
}

// ---------------------------------------------------------------------------
// Health
// ---------------------------------------------------------------------------

pub open spec fn version_finding(
    version: Result<Seq<char>, BackendErrorView>,
) -> HealthFindingView {
    match version {
        Ok(v) => if v == TESTED_VERSION@ {
            HealthFindingView::info(
                "PowerToys Power Display CLI "@ + v
                    + " (a version this build was tested against)"@,
            )
        } else {
            HealthFindingView::warn(
                "PowerToys Power Display CLI is "@ + v + "; this build was tested against "@
                    + TESTED_VERSION@ + "."@,
                "Output parsing is strict, so a changed format will fail loudly rather than silently. Re-capture the fixtures in tests/fixtures/powertoys/ if anything breaks."@,
            )
        },
        Err(e) => HealthFindingView::blocker(
            "Could not run the Power Display CLI: "@ + e.message(),
            not_running_hint(),
        ),
    }
}

/// What is found about the displays.
pub open spec fn monitor_findings(
    monitors: Result<Seq<DetectedMonitorView>, BackendErrorView>,
) -> Seq<HealthFindingView> {
    match monitors {
        Err(e) => seq![
            HealthFindingView::blocker(
                "Could not enumerate displays: "@ + e.message(),
                not_running_hint(),
            ),
        ],
        Ok(all) => {
            let ddc = all.filter(reachable()).len();
            let without_serial = all.filter(nameless()).len();
            seq![
                HealthFindingView::info(
                    decimal(all.len()) + " display(s) enumerated, "@ + decimal(ddc)
                        + " reachable over DDC/CI"@,
                ),
            ] + (if ddc == 0 {
                seq![
                    HealthFindingView::blocker(
                        "No display is reachable over DDC/CI, so no input can be switched."@,
                        "Check that DDC/CI is enabled in each monitor's on-screen menu, and that the monitors are connected by DisplayPort or HDMI rather than through an adapter that blocks DDC."@,
                    ),
                ]
            } else {
                Seq::empty()
            }) + (if without_serial > 0 {
                seq![
                    HealthFindingView::warn(
                        decimal(without_serial) + " DDC/CI display(s) published no EDID serial."@,
                        "Those displays can only be bound by connection id, so swapping their cables would silently rebind them. Re-run `configure` after any cabling change."@,
                    ),
                ]
            } else {
                Seq::empty()
            })
        },
    }
}

fn find_monitors(monitors: &Result<Vec<DetectedMonitor>, BackendError>) -> (r: Vec<HealthFinding>)
    ensures
        r.deep_view() == monitor_findings(monitors_result(*monitors)),
{
    let mut out: Vec<HealthFinding> = Vec::new();
    match monitors {
        Err(e) => {
            out.push(
                HealthFinding::blocker(
                    cat2("Could not enumerate displays: ", e.to_string().as_str()).as_str(),
                    not_running_hint_text(),
                ),
            );
        },
        Ok(all) => {
            let (ddc, without_serial) = count_reachable(all);
            out.push(
                HealthFinding::info(
                    cat4(
                        dec(all.len() as u64).as_str(),
                        " display(s) enumerated, ",
                        dec(ddc as u64).as_str(),
                        " reachable over DDC/CI",
                    ).as_str(),
                ),
            );
            if ddc == 0 {
                out.push(
                    HealthFinding::blocker(
                        "No display is reachable over DDC/CI, so no input can be switched.",
                        "Check that DDC/CI is enabled in each monitor's on-screen menu, and that the monitors are connected by DisplayPort or HDMI rather than through an adapter that blocks DDC.",
                    ),
                );
            }
            if without_serial > 0 {
                out.push(
                    HealthFinding::warn(
                        cat2(
                            dec(without_serial as u64).as_str(),
                            " DDC/CI display(s) published no EDID serial.",
                        ).as_str(),
                        "Those displays can only be bound by connection id, so swapping their cables would silently rebind them. Re-run `configure` after any cabling change.",
                    ),
                );
            }
        },
    }
    assert(out.deep_view() =~= monitor_findings(monitors_result(*monitors)));
    out
}

// ---------------------------------------------------------------------------
// What the adapter promises
// ---------------------------------------------------------------------------

/// A write is tried again only when the tool said that it never arrived.
/// Success, a vague failure, a missing monitor and a tool that could not be run
/// all end it at once.
pub proof fn law_only_definite_failures_are_repeated(answer: RunAnswer)
    ensures
        attempt_of(answer) is Again <==> (answer matches Ok(run) && !run.success()
            && definite_write_failure(run) && classified(run) !is MonitorNotFound),
{
}

/// A write is reported as accepted exactly when the last attempt exited with
/// success.
pub proof fn law_acceptance_is_an_exit_status(answers: Seq<RunAnswer>)
    requires
        answers.len() > 0,
    ensures
        write_result(answers) == Ok::<WriteOutcomeView, BackendErrorView>(
            WriteOutcomeView::Accepted,
        ) <==> (answers.last() matches Ok(run) && run.success()),
{
}

// ---------------------------------------------------------------------------
// Laws of driving Power Display
// ---------------------------------------------------------------------------

/// Every command names its monitor by id and nothing else, and a write gives
/// the input as a code that reads back as the one that was meant.
pub proof fn law_a_command_names_its_monitor(id: Seq<char>, value: InputCode)
    ensures
        write_args(id, value).len() == 5,
        write_args(id, value)[0] == "set"@,
        write_args(id, value)[1] == "--monitor-id"@ && write_args(id, value)[2] == id,
        write_args(id, value)[3] == "--input-source"@,
        code_in(write_args(id, value)[4]) == Ok::<InputCode, InputCodeParseErrorView>(value),
        read_args(id)[0] == "get"@ && capabilities_args(id)[0] == "capabilities"@,
        read_args(id)[1] == "--monitor-id"@ && read_args(id)[2] == id,
        capabilities_args(id)[1] == "--monitor-id"@ && capabilities_args(id)[2] == id,
        read_args(id)[4] == "input-source"@ && capabilities_args(id)[4] == "input-source"@,
{
    law_code_text_reads_back(value);
}

/// A write is sent once for each answer, to the same monitor and with the same
/// code, with a wait before every one but the first.
pub proof fn law_a_write_is_sent_once_for_each_answer(
    id: Seq<char>,
    value: InputCode,
    answers: Seq<RunAnswer>,
    i: int,
)
    requires
        0 <= i < answers.len(),
    ensures
        write_calls(id, value, answers).len() == 2 * answers.len() - 1,
        write_calls(id, value, answers)[2 * i] == (ToolCall::Wrote {
            id,
            code: value,
            args: write_args(id, value),
            answer: answers[i],
        }),
        i > 0 ==> write_calls(id, value, answers)[2 * i - 1] == ToolCall::Waited(400),
    decreases answers.len(),
{
    let front = answers.drop_last();
    if answers.len() > 1 {
        if i < front.len() {
            law_a_write_is_sent_once_for_each_answer(id, value, front, i);
            assert(front[i] == answers[i]);
        } else {
            law_a_write_is_sent_once_for_each_answer(id, value, front, 0);
        }
    } else {
        assert(write_calls(id, value, front).len() == 0);
    }
}

/// A write is tried again only after a failure that left the monitor as it was,
/// and three times in all. What comes of it is what came of the last try.
pub proof fn law_a_write_is_tried_three_times(answers: Seq<RunAnswer>)
    requires
        attempts(answers),
    ensures
        1 <= answers.len() <= 3,
        forall|i: int|
            0 <= i < answers.len() - 1 ==> ((#[trigger] answers[i]) matches Ok(run) && run.status
                != Some(0i32)),
        write_result(answers) matches Ok(WriteOutcomeView::Accepted) <==> (
        answers.last() matches Ok(run) && run.status == Some(0i32)),
        answers.last() is Err ==> write_result(answers) is Err,
{
}

/// What Power Display said decides what became of it.
pub proof fn law_a_failure_is_what_power_display_said(run: CommandRunView, lower: Seq<char>)
    ensures
        ({
            let missing = has_text(lower, "no monitor found"@);
            let off = has_text(lower, "not running"@) || (has_text(lower, "power display"@)
                && has_text(lower, "enable"@));
            let e = failure_of(run, lower);
            &&& e is MonitorNotFound <==> missing
            &&& e is ToolNotReady <==> !missing && off
            &&& !missing && !off <==> e is CommandFailed
            &&& e matches BackendErrorView::CommandFailed { command, status, stderr } ==> status
                == run.status && command == run.command() && stderr == trimmed(run.stderr)
        }),
        write_never_arrived(lower) <==> has_text(lower, "hardware write failed"@) || has_text(
            lower,
            "failed to set vcp"@,
        ),
{
}

/// A display is switchable exactly where Power Display reaches it over DDC/CI.
pub proof fn law_only_ddc_displays_can_be_switched(row: ListRowView, edid: Option<EdidInfoView>)
    ensures
        ({
            let m = monitor_from(row, edid);
            &&& m.switchable() <==> row.method == seq!['D', 'D', 'C', '/', 'C', 'I']
            &&& m.identity.transport is Wmi <==> row.method == seq!['W', 'M', 'I']
            &&& m.identity.transport matches TransportView::Other(other) ==> other == row.method
            &&& m.identity.backend_id == row.id
            &&& m.identity.discovery_index == Some(row.number)
            &&& m.raw == row.raw
            &&& row.name is Some ==> m.identity.model == row.name
            &&& edid matches Some(e) ==> m.identity.serial == e.best_serial()
                && m.identity.manufacturer == e.manufacturer && (row.name is None
                ==> m.identity.model == e.model_name)
            &&& edid is None ==> m.identity.serial is None && m.identity.manufacturer is None
        }),
{
    reveal_strlit("DDC/CI");
    reveal_strlit("WMI");
    assert("DDC/CI"@ =~= seq!['D', 'D', 'C', '/', 'C', 'I']);
    assert("WMI"@ =~= seq!['W', 'M', 'I']);
    assert("DDC/CI"@.len() == 6 && "WMI"@.len() == 3);
}

/// A reading is the input that was printed, and none where the monitor printed
/// none. Only a command that succeeded gives one.
pub proof fn law_a_reading_is_the_input_printed(answer: RunAnswer)
    ensures
        answer is Err ==> reading_from(answer) is Err,
        answer matches Ok(run) ==> (run.status == Some(0i32) ==> match settings_of(run.stdout) {
            Ok(parsed) => match parsed.input_source {
                Some(code) => reading_from(answer) == Ok::<InputReadingView, BackendErrorView>(
                    InputReadingView::Value(code),
                ),
                None => reading_from(answer) == Ok::<InputReadingView, BackendErrorView>(
                    InputReadingView::Unsupported,
                ),
            },
            Err(_) => reading_from(answer) is Err,
        }),
        answer matches Ok(run) && run.status != Some(0i32) ==> !(reading_from(answer) matches Ok(
            InputReadingView::Value(_),
        )),
{
}

/// Every row of the list is a monitor, in order, with what its own EDID says.
pub proof fn law_every_row_is_a_monitor(answer: RunAnswer, edids: Seq<Option<EdidInfoView>>)
    ensures
        rows_from(answer) matches Ok(rows) ==> (list_result(answer, edids) matches Ok(all) && {
            &&& all.len() == rows.len()
            &&& forall|i: int|
                0 <= i < rows.len() ==> (#[trigger] all[i]).identity.backend_id == rows[i].id
                    && (edids[i] matches Some(e) ==> all[i].identity.serial == e.best_serial())
        }),
        rows_from(answer) is Err ==> list_result(answer, edids) is Err,
{
}

/// A tool that was named is used where it is a file and never replaced; the one
/// found is used only where none was named.
pub proof fn law_a_tool_that_was_named_is_used(
    explicit: Option<Seq<char>>,
    is_file: bool,
    found: Option<Seq<char>>,
    dirs: Seq<Seq<char>>,
)
    ensures
        located(explicit, is_file, found, dirs) is Ok <==> (explicit is Some && is_file) || (
        explicit is None && found is Some),
        located(explicit, is_file, found, dirs) matches Ok(path) ==> Some(path) == (
        if explicit is Some {
            explicit
        } else {
            found
        }),
{
}

/// The inputs a monitor claims are those that were printed, each with its code.
pub proof fn law_the_inputs_printed_are_claimed(answer: RunAnswer)
    ensures
        answer matches Ok(run) ==> (run.status == Some(0i32) ==> match capabilities_in(run.stdout) {
            Ok(parsed) => capabilities_from(answer) matches Ok(c) && {
                &&& c.feature_present == parsed.feature_present
                &&& c.options.len() == parsed.options.len()
                &&& forall|i: int|
                    0 <= i < c.options.len() ==> (#[trigger] c.options[i]).code
                        == parsed.options[i].0
                &&& c.raw_capabilities == parsed.raw_capabilities
            },
            Err(_) => capabilities_from(answer) is Err,
        }),
        answer matches Ok(run) && run.status != Some(0i32) ==> capabilities_from(answer) is Err,
        answer is Err ==> capabilities_from(answer) is Err,
{
}

} // verus!

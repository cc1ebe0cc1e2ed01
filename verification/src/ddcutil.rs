//! Linux backend: a process adapter over the `ddcutil` CLI.
//!
//! Two decisions worth stating:
//!
//! * Displays are selected by `--sn`/`--model` whenever the panel publishes a
//!   serial. `--display N` is never used for a write: those numbers, and the
//!   I²C bus numbering behind them, are discovery-time addresses that move.
//! * All calls are to be serialised by whoever runs them. Overlapping DDC
//!   transactions on one I²C bus corrupt each other, and nothing here is fast
//!   enough for the parallelism to be worth it.

use vstd::prelude::*;

use crate::backend::{
    capabilities_result, monitors_result, reading_answer, write_answer, BackendError,
    BackendErrorView, BackendHealth, BackendHealthView, HealthFinding, HealthFindingView,
};
use crate::console::{ddcutil_changes, Console, DdcutilConsole, ToolCall};
use crate::ddcutil_parse::{
    capabilities_in, displays_in, number_in, parse_capabilities, parse_detect, parse_getvcp_input,
    vcp_input, DetectedDisplay, DetectedDisplayView, ParseError, ParseErrorView, ParsedCapabilities,
    ParsedCapabilitiesView,
};
use crate::digits::{
    all_digits, dec, decimal, digit_worth, law_a_small_byte_is_worth_its_digits,
    law_digits_are_read_for_their_worth, parse_unsigned, small_hex, small_hex_byte, worth,
};
use crate::mccs::{input_source_values, input_values};
use crate::proc::{run_answer, CommandRun, CommandRunView, ProcError};
use crate::runner::{
    asked_so, call, came_back, command_result, count_reachable, label_all, labelled_all, nameless,
    non_empty, one_arg, reachable, text_result, texts_result, unasked, understand_run, with_args,
    RunAnswer,
};
use crate::seqs::{
    lemma_filter_no_one, lemma_filter_one, lemma_filter_take, lemma_filter_take_none,
    lemma_filter_two,
};
use crate::text::{
    cat2, cat3, cat4, chars_of, contains_str, copy_opt, has_text, last_at,
    law_a_text_is_trimmed_one_way, lines, lines_of, lowercase, occurs_at, opt_text, pieces, rfind, same, starts_with_str, string_of, texts, trim,
    trim_str, trimmed,
};
use crate::types::{
    DetectedMonitor, DetectedMonitorView, InputCapabilities, InputCapabilitiesView, InputCode,
    InputReading, InputReadingView, InputSourceOption, InputSourceOptionView, MonitorHandle,
    MonitorHandleView, MonitorIdentity, MonitorIdentityView, Transport, TransportView, WriteOutcome,
    WriteOutcomeView,
};

verus! {

pub const EXE_NAME: &'static str = "ddcutil";

/// What is to be done about missing permissions.
pub open spec fn permission_hint() -> Seq<char> {
    "Add yourself to the `i2c` group (`sudo usermod -aG i2c $USER`, then log out and back in), and make sure the `i2c-dev` module is loaded. See https://www.ddcutil.com/i2c_permissions/ . Do not run this tool with sudo."@
}

fn permission_hint_text() -> (r: &'static str)
    ensures
        r@ == permission_hint(),
{
    "Add yourself to the `i2c` group (`sudo usermod -aG i2c $USER`, then log out and back in), and make sure the `i2c-dev` module is loaded. See https://www.ddcutil.com/i2c_permissions/ . Do not run this tool with sudo."
}

// ---------------------------------------------------------------------------
// Failures
// ---------------------------------------------------------------------------

/// Both outputs of a command.
pub open spec fn combined_output(run: CommandRunView) -> Seq<char> {
    trimmed(run.stdout) + "\n"@ + trimmed(run.stderr)
}

/// What a failed command means, by what stands in its output. `lower` is that
/// output in small letters.
pub open spec fn failure_of(run: CommandRunView, lower: Seq<char>) -> BackendErrorView {
    let said = trimmed(combined_output(run));
    if has_text(lower, "permission denied"@) || has_text(lower, "eacces"@) {
        BackendErrorView::PermissionDenied { detail: said + ". "@ + permission_hint() }
    } else if has_text(lower, "no such file"@) && has_text(lower, "i2c"@) {
        BackendErrorView::PermissionDenied {
            detail: said
                + ". The i2c-dev module may not be loaded (`sudo modprobe i2c-dev`)."@,
        }
    } else if has_text(lower, "display not found"@) || has_text(lower, "no display found"@)
        || has_text(lower, "invalid display"@) {
        BackendErrorView::MonitorNotFound { detail: said }
    } else if has_text(lower, "unsupported feature"@) || has_text(
        lower,
        "feature not supported"@,
    ) {
        BackendErrorView::Unsupported { detail: said }
    } else {
        BackendErrorView::CommandFailed {
            command: run.command(),
            status: run.status,
            stderr: said,
        }
    }
}

/// What a failed command means.
pub open spec fn classified(run: CommandRunView) -> BackendErrorView {
    failure_of(run, lowercase(combined_output(run)))
}

fn both_outputs(run: &CommandRun) -> (r: String)
    ensures
        r@ == combined_output(run.deep_view()),
{
    let out = trim_str(run.stdout.as_str());
    let err = trim_str(run.stderr.as_str());
    cat3(out.as_str(), "\n", err.as_str())
}

/// What a failed command means, given its output in small letters.
pub fn classify_lowered(run: &CommandRun, lower: &str) -> (r: BackendError)
    ensures
        r.deep_view() == failure_of(run.deep_view(), lower@),
{
    let combined = both_outputs(run);
    let said = trim_str(combined.as_str());
    let l = chars_of(lower);
    let l = l.as_slice();
    if contains_str(l, "permission denied") || contains_str(l, "eacces") {
        return BackendError::PermissionDenied {
            detail: cat3(said.as_str(), ". ", permission_hint_text()),
        };
    }
    if contains_str(l, "no such file") && contains_str(l, "i2c") {
        return BackendError::PermissionDenied {
            detail: cat2(
                said.as_str(),
                ". The i2c-dev module may not be loaded (`sudo modprobe i2c-dev`).",
            ),
        };
    }
    if contains_str(l, "display not found") || contains_str(l, "no display found") || contains_str(
        l,
        "invalid display",
    ) {
        return BackendError::MonitorNotFound { detail: said };
    }
    if contains_str(l, "unsupported feature") || contains_str(l, "feature not supported") {
        return BackendError::Unsupported { detail: said };
    }
    BackendError::CommandFailed {
        command: run.display_command(),
        status: run.status,
        stderr: said,
    }
}

/// What a failed command means.
pub fn classify_failure(run: &CommandRun) -> (r: BackendError)
    ensures
        r.deep_view() == classified(run.deep_view()),
{
    let combined = both_outputs(run);
    let lower = combined.as_str().to_lowercase();
    classify_lowered(run, lower.as_str())
}

/// `/dev/i2c-5` -> `5`.
pub open spec fn bus_number_in(dev: Seq<char>) -> Option<u32> {
    if has_text(dev, "i2c-"@) {
        let at = choose|at: int| last_at(dev, "i2c-"@, at);
        number_in(trimmed(dev.skip(at + 4)))
    } else {
        None
    }
}

/// `/dev/i2c-5` -> `5`.
pub fn bus_number(dev: &str) -> (r: Option<u32>)
    ensures
        r == bus_number_in(dev@),
{
    let cs = chars_of(dev);
    let mark = chars_of("i2c-");
    proof {
        reveal_strlit("i2c-");
    }
    match rfind(cs.as_slice(), mark.as_slice()) {
        None => None,
        Some(at) => {
            proof {
                assert(occurs_at(dev@, "i2c-"@, at as int));
                let chosen = choose|c: int| last_at(dev@, "i2c-"@, c);
                assert(last_at(dev@, "i2c-"@, at as int));
                assert(chosen == at) by {
                    if chosen < at {
                        assert(occurs_at(dev@, "i2c-"@, at as int));
                    } else if at < chosen {
                        assert(occurs_at(dev@, "i2c-"@, chosen));
                    }
                }
                assert(at + 4 <= cs@.len());
            }
            let end: usize = cs.len();
            let digits = vstd::slice::slice_subrange(cs.as_slice(), at + 4, end);
            assert(digits@ =~= dev@.skip(at as int + 4));
            match parse_unsigned(trim(digits), 10, u32::MAX) {
                Ok(n) => Some(n),
                Err(_) => None,
            }
        },
    }
}

// ---------------------------------------------------------------------------
// What answers mean
// ---------------------------------------------------------------------------

/// A command that succeeded.
pub open spec fn succeeded(answer: RunAnswer) -> Result<CommandRunView, BackendErrorView> {
    match came_back(answer) {
        Ok(run) => if run.success() {
            Ok(run)
        } else {
            Err(classified(run))
        },
        Err(e) => Err(e),
    }
}

/// The version, from the answer to `--version`: its first line.
pub open spec fn version_from(answer: RunAnswer) -> Result<Seq<char>, BackendErrorView> {
    match succeeded(answer) {
        Ok(run) => Ok(
            if lines_of(run.stdout).len() > 0 {
                trimmed(lines_of(run.stdout)[0])
            } else {
                Seq::empty()
            },
        ),
        Err(e) => Err(e),
    }
}

/// The displays, from the answer to `detect`.
pub open spec fn displays_from(answer: RunAnswer) -> Result<
    Seq<DetectedDisplayView>,
    BackendErrorView,
> {
    match succeeded(answer) {
        Ok(run) => if displays_in(run.stdout).len() > 0 {
            Ok(displays_in(run.stdout))
        } else {
            Err(
                BackendErrorView::UnexpectedOutput {
                    command: run.command(),
                    detail: ParseErrorView::NoDisplays(run.stdout).message(),
                    raw: run.stdout,
                },
            )
        },
        Err(e) => Err(e),
    }
}

/// A display as the rest of the library sees it.
pub open spec fn monitor_from(d: DetectedDisplayView) -> DetectedMonitorView {
    DetectedMonitorView {
        identity: MonitorIdentityView {
            backend_id: d.stable_id(),
            discovery_index: d.display_number,
            manufacturer: d.manufacturer,
            model: d.model,
            serial: match d.serial {
                Some(s) if s.len() > 0 => Some(s),
                _ => None,
            },
            transport: if d.invalid {
                TransportView::Other("no DDC support"@)
            } else {
                TransportView::DdcCi
            },
        },
        raw: d.raw,
    }
}

/// Whether a handle has a serial to be found by.
pub open spec fn has_serial(handle: MonitorHandleView) -> bool {
    handle.serial matches Some(s) && s.len() > 0
}

/// The arguments that select a display by its serial and, where known, its
/// model.
pub open spec fn serial_selector(handle: MonitorHandleView) -> Seq<Seq<char>> {
    let by_serial = seq!["--sn"@, handle.serial->0];
    match handle.model {
        Some(m) if m.len() > 0 => by_serial + seq!["--model"@, m],
        _ => by_serial,
    }
}

/// Holds of the usable displays at a connection.
pub open spec fn usable_at(id: Seq<char>) -> spec_fn(DetectedDisplayView) -> bool {
    |d: DetectedDisplayView| !d.invalid && d.stable_id() == id
}

/// The arguments that select the one display at a connection, by its bus.
pub open spec fn port_selector(
    handle: MonitorHandleView,
    displays: Seq<DetectedDisplayView>,
) -> Result<Seq<Seq<char>>, BackendErrorView> {
    let found = displays.filter(usable_at(handle.backend_id));
    if found.len() == 1 {
        let bus = match found[0].i2c_bus {
            Some(dev) => bus_number_in(dev),
            None => None,
        };
        match bus {
            Some(n) => Ok(seq!["--bus"@, decimal(n as nat)]),
            None => Err(
                BackendErrorView::MonitorNotFound {
                    detail: handle.backend_id
                        + " has no I2C bus number and no serial, so it cannot be addressed safely"@,
                },
            ),
        }
    } else if found.len() == 0 {
        Err(
            BackendErrorView::MonitorNotFound {
                detail: "no display is currently at "@ + handle.backend_id,
            },
        )
    } else {
        Err(
            BackendErrorView::MonitorNotFound {
                detail: decimal(found.len()) + " displays report the connection "@
                    + handle.backend_id + "; refusing to guess"@,
            },
        )
    }
}

/// The arguments that select exactly one display. `detect` is the answer to
/// `detect`, which is only asked for where there is no serial.
pub open spec fn selector_of(handle: MonitorHandleView, detect: RunAnswer) -> Result<
    Seq<Seq<char>>,
    BackendErrorView,
> {
    if has_serial(handle) {
        Ok(serial_selector(handle))
    } else {
        match displays_from(detect) {
            Ok(displays) => port_selector(handle, displays),
            Err(e) => Err(e),
        }
    }
}

/// What is asked in order to select a display: nothing, where there is a serial
/// to find it by.
pub open spec fn select_calls(handle: MonitorHandleView, detect: RunAnswer) -> Seq<ToolCall> {
    if has_serial(handle) {
        Seq::empty()
    } else {
        seq![ToolCall::Ran(seq!["detect"@], detect)]
    }
}

/// A display was selected like this, and nothing else was done.
pub open spec fn selected_so(
    before: Seq<ToolCall>,
    after: Seq<ToolCall>,
    handle: MonitorHandleView,
    detect: RunAnswer,
) -> bool {
    after == before + select_calls(handle, detect)
}

/// The reading that an answer to `getvcp` is.
pub open spec fn reading_from(answer: RunAnswer) -> Result<InputReadingView, BackendErrorView> {
    match came_back(answer) {
        Err(e) => Err(e),
        Ok(run) => if !run.success() {
            match classified(run) {
                BackendErrorView::MonitorNotFound { detail } => Err(
                    BackendErrorView::MonitorNotFound { detail },
                ),
                BackendErrorView::Unsupported { .. } => Ok(InputReadingView::Unsupported),
                other => Ok(InputReadingView::ReadFailed { detail: other.message() }),
            }
        } else {
            match vcp_input(run.stdout) {
                Ok(code) => Ok(InputReadingView::Value(code)),
                Err(ParseErrorView::NotInputSource(_)) => Ok(InputReadingView::Unsupported),
                Err(e) => Err(
                    BackendErrorView::UnexpectedOutput {
                        command: run.command(),
                        detail: e.message(),
                        raw: run.stdout,
                    },
                ),
            }
        },
    }
}

/// What an answer to `setvcp` says of the write. An exit status of 0 means
/// that the write went out, not that the panel changed its input.
pub open spec fn outcome_from(answer: RunAnswer) -> Result<WriteOutcomeView, BackendErrorView> {
    match came_back(answer) {
        Err(e) => Err(e),
        Ok(run) => if run.success() {
            Ok(WriteOutcomeView::Accepted)
        } else {
            match classified(run) {
                BackendErrorView::MonitorNotFound { detail } => Err(
                    BackendErrorView::MonitorNotFound { detail },
                ),
                other => Ok(WriteOutcomeView::Failed { detail: other.message() }),
            }
        },
    }
}

/// The raw capabilities string, from the answer to `capabilities --terse`.
pub open spec fn raw_from(answer: RunAnswer) -> Option<Seq<char>> {
    match succeeded(answer) {
        Ok(run) => if "("@.is_prefix_of(trimmed(run.stdout)) {
            Some(trimmed(run.stdout))
        } else {
            None
        },
        Err(_) => None,
    }
}

pub open spec fn standard_of(values: Seq<u8>) -> Seq<InputSourceOptionView> {
    values.map_values(|v: u8| InputSourceOptionView::standard(InputCode(v)))
}

/// What both forms of the capabilities say together. The raw string is only
/// read for inputs where the other form lists none.
pub open spec fn capabilities_from(
    parsed: ParsedCapabilitiesView,
    raw: Option<Seq<char>>,
    stdout: Seq<char>,
) -> InputCapabilitiesView {
    let listed = labelled_all(parsed.options);
    let options = if listed.len() > 0 {
        listed
    } else {
        match raw {
            Some(caps) => match input_values(caps) {
                Ok(Some(values)) => standard_of(values),
                _ => Seq::empty(),
            },
            None => Seq::empty(),
        }
    };
    InputCapabilitiesView {
        feature_present: parsed.feature_present || options.len() > 0,
        options,
        raw_capabilities: raw,
        raw_output: stdout,
    }
}

/// What the answer to `capabilities` lists.
pub open spec fn parsed_from(answer: RunAnswer) -> Result<
    (ParsedCapabilitiesView, Seq<char>),
    BackendErrorView,
> {
    match succeeded(answer) {
        Err(e) => Err(e),
        Ok(run) => match capabilities_in(run.stdout) {
            Ok(parsed) => Ok((parsed, run.stdout)),
            Err(e) => Err(
                BackendErrorView::UnexpectedOutput {
                    command: run.command(),
                    detail: e.message(),
                    raw: run.stdout,
                },
            ),
        },
    }
}

// ---------------------------------------------------------------------------
// The adapter
// ---------------------------------------------------------------------------

#[derive(Debug)]
pub struct DdcutilBackend {
    exe: String,
}

/// What it means to look for the executable. `is_file` tells whether the
/// configured path is a file, `found` what a search finds.
pub open spec fn located(
    explicit: Option<Seq<char>>,
    is_file: bool,
    found: Option<Seq<char>>,
) -> Result<
    Seq<char>,
    BackendErrorView,
> {
    match explicit {
        Some(p) => if is_file {
            Ok(p)
        } else {
            Err(
                BackendErrorView::ToolNotFound {
                    tool: p,
                    hint: "The `tool_path` in config.toml does not point at a file."@,
                },
            )
        },
        None => match found {
            Some(p) => Ok(p),
            None => Err(
                BackendErrorView::ToolNotFound {
                    tool: "ddcutil"@,
                    hint: "Install it with `sudo apt install ddcutil`, or set `tool_path` in config.toml."@,
                },
            ),
        },
    }
}

pub open spec fn displays_result(r: Result<Vec<DetectedDisplay>, BackendError>) -> Result<
    Seq<DetectedDisplayView>,
    BackendErrorView,
> {
    match r {
        Ok(v) => Ok(v.deep_view()),
        Err(e) => Err(e.deep_view()),
    }
}

/// What is asked to learn the capabilities of a monitor, in order.
pub open spec fn capability_calls(
    handle: MonitorHandleView,
    detect: RunAnswer,
    full: RunAnswer,
    terse: RunAnswer,
) -> Seq<ToolCall> {
    select_calls(handle, detect) + match selector_of(handle, detect) {
        Err(_) => Seq::empty(),
        Ok(selector) => if parsed_from(full) is Ok {
            seq![
                ToolCall::Ran(selector + seq!["capabilities"@], full),
                ToolCall::Ran(selector + seq!["capabilities"@, "--terse"@], terse),
            ]
        } else {
            seq![ToolCall::Ran(selector + seq!["capabilities"@], full)]
        },
    }
}

/// The capabilities that come of it.
pub open spec fn capability_result(
    handle: MonitorHandleView,
    detect: RunAnswer,
    full: RunAnswer,
    terse: RunAnswer,
) -> Result<InputCapabilitiesView, BackendErrorView> {
    match selector_of(handle, detect) {
        Err(e) => Err(e),
        Ok(_) => match parsed_from(full) {
            Err(e) => Err(e),
            Ok((parsed, stdout)) => Ok(capabilities_from(parsed, raw_from(terse), stdout)),
        },
    }
}

/// The capabilities of one monitor were asked for like this, and nothing else
/// was done.
pub open spec fn capabilities_asked(
    before: Seq<ToolCall>,
    after: Seq<ToolCall>,
    handle: MonitorHandleView,
    detect: RunAnswer,
    full: RunAnswer,
    terse: RunAnswer,
    result: Result<InputCapabilitiesView, BackendErrorView>,
) -> bool {
    &&& after == before + capability_calls(handle, detect, full, terse)
    &&& result == capability_result(handle, detect, full, terse)
}

/// What is asked to read the input of a monitor, in order.
pub open spec fn read_calls(handle: MonitorHandleView, detect: RunAnswer, answer: RunAnswer) -> Seq<
    ToolCall,
> {
    select_calls(handle, detect) + match selector_of(handle, detect) {
        Err(_) => Seq::empty(),
        Ok(selector) => seq![
            ToolCall::Ran(selector + seq!["getvcp"@, "60"@, "--terse"@], answer),
        ],
    }
}

/// The input of one monitor was read like this, and nothing else was done.
pub open spec fn read_asked(
    before: Seq<ToolCall>,
    after: Seq<ToolCall>,
    handle: MonitorHandleView,
    detect: RunAnswer,
    answer: RunAnswer,
    result: Result<InputReadingView, BackendErrorView>,
) -> bool {
    &&& after == before + read_calls(handle, detect, answer)
    &&& result == match selector_of(handle, detect) {
        Err(e) => Err(e),
        Ok(_) => reading_from(answer),
    }
}

/// What is done to write the input of a monitor, in order.
pub open spec fn write_calls(
    handle: MonitorHandleView,
    value: InputCode,
    detect: RunAnswer,
    answer: RunAnswer,
) -> Seq<ToolCall> {
    select_calls(handle, detect) + match selector_of(handle, detect) {
        Err(_) => Seq::empty(),
        Ok(selector) => seq![
            ToolCall::Wrote {
                id: handle.backend_id,
                code: value,
                args: selector + seq!["setvcp"@, "60"@, small_hex_byte(value.0)],
                answer,
            },
        ],
    }
}

/// The input of one monitor was written like this, and nothing else was done.
pub open spec fn write_asked(
    before: Seq<ToolCall>,
    after: Seq<ToolCall>,
    handle: MonitorHandleView,
    value: InputCode,
    detect: RunAnswer,
    answer: RunAnswer,
    result: Result<WriteOutcomeView, BackendErrorView>,
) -> bool {
    &&& after == before + write_calls(handle, value, detect, answer)
    &&& result == match selector_of(handle, detect) {
        Err(e) => Err(e),
        Ok(_) => outcome_from(answer),
    }
}

/// Commands that only ask a display that was selected.
pub proof fn lemma_asks(handle: MonitorHandleView, detect: RunAnswer)
    ensures
        selector_of(handle, detect) matches Ok(selector) ==> {
            &&& !ddcutil_changes(selector + seq!["capabilities"@])
            &&& !ddcutil_changes(selector + seq!["capabilities"@, "--terse"@])
            &&& !ddcutil_changes(selector + seq!["getvcp"@, "60"@, "--terse"@])
        },
{
    reveal_strlit("setvcp");
    reveal_strlit("getvcp");
    reveal_strlit("--sn");
    reveal_strlit("--bus");
    reveal_strlit("--model");
    assert("setvcp"@[0] != "getvcp"@[0]);
    assert("setvcp"@[0] != "--model"@[0]);
    assert("setvcp"@[0] != "--sn"@[0]);
    assert("setvcp"@[0] != "--bus"@[0]);
    if let Ok(selector) = selector_of(handle, detect) {
        assert(selector.len() >= 2 && selector[selector.len() - 2] != "setvcp"@);
        let full = selector + seq!["capabilities"@];
        assert(full[full.len() - 3] == selector[selector.len() - 2]);
        let terse = selector + seq!["capabilities"@, "--terse"@];
        assert(terse[terse.len() - 2] == "capabilities"@);
        let get = selector + seq!["getvcp"@, "60"@, "--terse"@];
        assert(get[get.len() - 3] == "getvcp"@);
    }
}

/// Commands that only ask, whatever the display.
pub proof fn lemma_asks_anything()
    ensures
        !ddcutil_changes(seq!["detect"@]),
        !ddcutil_changes(seq!["--version"@]),
{
}

fn call_ok<C: Console>(console: &mut C, args: &Vec<String>) -> (r: Result<CommandRun, BackendError>)
    requires
        !C::changes(texts(args@)),
    ensures
        exists|answer: RunAnswer|
            #[trigger] asked_so(
                old(console).calls(),
                final(console).calls(),
                texts(args@),
                answer,
            ) && command_result(r) == succeeded(answer),
{
    match call(console, args) {
        Ok(done) => {
            if done.success() {
                Ok(done)
            } else {
                Err(classify_failure(&done))
            }
        },
        Err(e) => Err(e),
    }
}

fn selector_by_serial(handle: &MonitorHandle, serial: &str) -> (r: Vec<String>)
    requires
        handle.deep_view().serial == Some(serial@),
    ensures
        texts(r@) == serial_selector(handle.deep_view()),
{
    let mut args: Vec<String> = Vec::new();
    args.push("--sn".to_owned());
    args.push(serial.to_owned());
    assert(texts(args@) =~= seq!["--sn"@, serial@]);
    match non_empty(&handle.model) {
        Some(model) => {
            args.push("--model".to_owned());
            args.push(model.to_owned());
            assert(texts(args@) =~= seq!["--sn"@, serial@] + seq!["--model"@, model@]);
        },
        None => {},
    }
    args
}

/// The arguments that select the one display at a connection, by its bus.
pub fn selector_by_port(handle: &MonitorHandle, displays: &Vec<DetectedDisplay>) -> (r: Result<
    Vec<String>,
    BackendError,
>)
    ensures
        texts_result(r) == port_selector(handle.deep_view(), displays.deep_view()),
{
    let ghost all = displays.deep_view();
    let ghost p = usable_at(handle.backend_id@);
    let mut found: Vec<&DetectedDisplay> = Vec::new();
    let mut i: usize = 0;
    proof {
        lemma_filter_take_none(all, p);
        assert(found.deep_view() =~= all.take(0).filter(p));
    }
    while i < displays.len()
        invariant
            i <= displays.len(),
            all == displays.deep_view(),
            p == usable_at(handle.backend_id@),
            found.deep_view() == all.take(i as int).filter(p),
        decreases displays.len() - i,
    {
        proof {
            lemma_filter_take(all, p, i as int);
        }
        let d: &DetectedDisplay = &displays[i];
        if !d.invalid && same(d.stable_id().as_str(), handle.backend_id.as_str()) {
            let ghost before = found.deep_view();
            found.push(d);
            assert(found.deep_view() =~= before.push(all[i as int]));
        }
        i += 1;
    }
    proof {
        lemma_filter_take_none(all, p);
    }
    if found.len() == 1 {
        assert(found.deep_view()[0] == found[0].deep_view());
        let bus: Option<u32> = match &found[0].i2c_bus {
            Some(dev) => bus_number(dev.as_str()),
            None => None,
        };
        match bus {
            Some(n) => {
                let mut args: Vec<String> = Vec::new();
                args.push("--bus".to_owned());
                args.push(dec(n as u64));
                assert(texts(args@) =~= seq!["--bus"@, decimal(n as nat)]);
                Ok(args)
            },
            None => Err(
                BackendError::MonitorNotFound {
                    detail: cat2(
                        handle.backend_id.as_str(),
                        " has no I2C bus number and no serial, so it cannot be addressed safely",
                    ),
                },
            ),
        }
    } else if found.len() == 0 {
        Err(
            BackendError::MonitorNotFound {
                detail: cat2("no display is currently at ", handle.backend_id.as_str()),
            },
        )
    } else {
        Err(
            BackendError::MonitorNotFound {
                detail: cat4(
                    dec(found.len() as u64).as_str(),
                    " displays report the connection ",
                    handle.backend_id.as_str(),
                    "; refusing to guess",
                ),
            },
        )
    }
}

fn to_monitor(d: &DetectedDisplay) -> (r: DetectedMonitor)
    ensures
        r.deep_view() == monitor_from(d.deep_view()),
{
    let serial: Option<String> = match non_empty(&d.serial) {
        Some(s) => Some(s.to_owned()),
        None => None,
    };
    DetectedMonitor {
        identity: MonitorIdentity {
            backend_id: d.stable_id(),
            discovery_index: d.display_number,
            manufacturer: copy_opt(&d.manufacturer),
            model: copy_opt(&d.model),
            serial,
            transport: if d.invalid {
                Transport::Other("no DDC support".to_owned())
            } else {
                Transport::DdcCi
            },
        },
        raw: d.raw.clone(),
    }
}

/// What both forms of the capabilities say together.
pub fn merge_capabilities(
    parsed: &ParsedCapabilities,
    raw: Option<String>,
    stdout: String,
) -> (r: InputCapabilities)
    ensures
        r.deep_view() == capabilities_from(parsed.deep_view(), opt_text(raw), stdout@),
{
    let mut options = label_all(&parsed.options);
    if options.len() == 0 {
        match &raw {
            Some(caps) => {
                match input_source_values(caps.as_str()) {
                    Ok(Some(values)) => {
                        let ghost want = standard_of(values@);
                        let mut k: usize = 0;
                        assert(options.deep_view() =~= want.take(0));
                        while k < values.len()
                            invariant
                                k <= values.len(),
                                want == standard_of(values@),
                                options.deep_view() == want.take(k as int),
                            decreases values.len() - k,
                        {
                            let ghost before = options.deep_view();
                            options.push(InputSourceOption::standard(InputCode(values[k])));
                            assert(options.deep_view() =~= before.push(want[k as int]));
                            assert(want.take(k as int + 1) =~= want.take(k as int).push(
                                want[k as int],
                            ));
                            k += 1;
                        }
                        assert(want.take(want.len() as int) =~= want);
                    },
                    _ => {
                        assert(options.deep_view() =~= Seq::<InputSourceOptionView>::empty());
                    },
                }
            },
            None => {
                assert(options.deep_view() =~= Seq::<InputSourceOptionView>::empty());
            },
        }
    }
    InputCapabilities {
        feature_present: parsed.feature_present || options.len() > 0,
        options,
        raw_capabilities: raw,
        raw_output: stdout,
    }
}

impl DdcutilBackend {
    /// The executable that is run.
    pub closed spec fn program(&self) -> Seq<char> {
        self.exe@
    }

    pub fn new(exe: String) -> (r: Self)
        ensures
            r.program() == exe@,
    {
        DdcutilBackend { exe }
    }

    pub fn exe(&self) -> (r: &str)
        ensures
            r@ == self.program(),
    {
        self.exe.as_str()
    }

    pub fn name(&self) -> (r: &'static str)
        ensures
            r@ == "ddcutil-cli"@,
    {
        "ddcutil-cli"
    }

    /// Which executable to run. `is_file` tells whether the configured path is
    /// a file, `found` what a search finds.
    pub fn locate(explicit: Option<&str>, is_file: bool, found: Option<String>) -> (r: Result<
        String,
        BackendError,
    >)
        ensures
            text_result(r) == located(crate::types::opt_str(explicit), is_file, opt_text(found)),
    {
        match explicit {
            Some(p) => {
                if is_file {
                    Ok(p.to_owned())
                } else {
                    Err(
                        BackendError::ToolNotFound {
                            tool: p.to_owned(),
                            hint: "The `tool_path` in config.toml does not point at a file.".to_owned(),
                        },
                    )
                }
            },
            None => match found {
                Some(p) => Ok(p),
                None => Err(
                    BackendError::ToolNotFound {
                        tool: "ddcutil".to_owned(),
                        hint: "Install it with `sudo apt install ddcutil`, or set `tool_path` in config.toml.".to_owned(),
                    },
                ),
            },
        }
    }

    pub fn version<
        R: Fn(&Vec<String>) -> Result<CommandRun, ProcError>,
        D: Fn() -> Option<Vec<bool>>,
    >(&self, console: &mut DdcutilConsole<R, D>) -> (r:
        Result<String, BackendError>)
        ensures
            exists|answer: RunAnswer|
                #[trigger] asked_so(
                    old(console).calls(),
                    final(console).calls(),
                    seq!["--version"@],
                    answer,
                ) && text_result(r) == version_from(
                    answer,
                ),
    {
        proof {
            lemma_asks_anything();
        }
        match call_ok(console, &one_arg("--version")) {
            Ok(done) => {
                let cs = chars_of(done.stdout.as_str());
                let all = lines(cs.as_slice());
                if all.len() > 0 {
                    assert(pieces(all@)[0] == all@[0]@);
                    Ok(string_of(trim(all[0])))
                } else {
                    let none = String::new();
                    assert(none@ =~= Seq::<char>::empty());
                    Ok(none)
                }
            },
            Err(e) => Err(e),
        }
    }

    fn detect<
        R: Fn(&Vec<String>) -> Result<CommandRun, ProcError>,
        D: Fn() -> Option<Vec<bool>>,
    >(&self, console: &mut DdcutilConsole<R, D>) -> (r: Result<
        Vec<DetectedDisplay>,
        BackendError,
    >)
        ensures
            exists|answer: RunAnswer|
                #[trigger] asked_so(
                    old(console).calls(),
                    final(console).calls(),
                    seq!["detect"@],
                    answer,
                ) && displays_result(r)
                    == displays_from(answer),
    {
        proof {
            lemma_asks_anything();
        }
        match call_ok(console, &one_arg("detect")) {
            Ok(done) => match parse_detect(done.stdout.as_str()) {
                Ok(displays) => Ok(displays),
                Err(e) => Err(
                    BackendError::UnexpectedOutput {
                        command: done.display_command(),
                        detail: e.to_string(),
                        raw: done.stdout.clone(),
                    },
                ),
            },
            Err(e) => Err(e),
        }
    }

    /// Build the selector arguments that address exactly one display.
    ///
    /// Never falls back to `--display 1`: an unresolvable handle is an error.
    pub fn selector<
        R: Fn(&Vec<String>) -> Result<CommandRun, ProcError>,
        D: Fn() -> Option<Vec<bool>>,
    >(
        &self,
        handle: &MonitorHandle,
        console: &mut DdcutilConsole<R, D>,
    ) -> (r: Result<Vec<String>, BackendError>)
        ensures
            exists|detect: RunAnswer|
                #[trigger] selected_so(
                    old(console).calls(),
                    final(console).calls(),
                    handle.deep_view(),
                    detect,
                ) && texts_result(r)
                    == selector_of(handle.deep_view(), detect),
    {
        let ghost before = console.calls();
        match non_empty(&handle.serial) {
            Some(serial) => {
                let args = selector_by_serial(handle, serial);
                assert(console.calls() =~= before + select_calls(handle.deep_view(), unasked()));
                assert(selected_so(before, console.calls(), handle.deep_view(), unasked()));
                Ok(args)
            },
            None => {
                // No serial to bind to, so the port id is resolved to a bus
                // number now rather than trusting one recorded earlier.
                let found = self.detect(console);
                proof {
                    let answer = choose|answer: RunAnswer|
                        #[trigger] asked_so(
                            before,
                            console.calls(),
                            seq!["detect"@],
                            answer,
                        ) && displays_result(found) == displays_from(answer);
                    assert(console.calls() =~= before + select_calls(handle.deep_view(), answer));
                    assert(selected_so(before, console.calls(), handle.deep_view(), answer));
                }
                match found {
                    Ok(displays) => selector_by_port(handle, &displays),
                    Err(e) => Err(e),
                }
            },
        }
    }

    pub fn discover<
        R: Fn(&Vec<String>) -> Result<CommandRun, ProcError>,
        D: Fn() -> Option<Vec<bool>>,
    >(&self, console: &mut DdcutilConsole<R, D>) -> (r:
        Result<Vec<DetectedMonitor>, BackendError>)
        ensures
            exists|answer: RunAnswer|
                #[trigger] asked_so(
                    old(console).calls(),
                    final(console).calls(),
                    seq!["detect"@],
                    answer,
                ) && monitors_result(r) == (
                match displays_from(answer) {
                    Ok(displays) => Ok(
                        displays.map_values(|d: DetectedDisplayView| monitor_from(d)),
                    ),
                    Err(e) => Err(e),
                }),
    {
        match self.detect(console) {
            Err(e) => Err(e),
            Ok(displays) => {
                let ghost want = displays.deep_view().map_values(
                    |d: DetectedDisplayView| monitor_from(d),
                );
                let mut out: Vec<DetectedMonitor> = Vec::new();
                let mut i: usize = 0;
                assert(out.deep_view() =~= want.take(0));
                while i < displays.len()
                    invariant
                        i <= displays.len(),
                        want == displays.deep_view().map_values(
                            |d: DetectedDisplayView| monitor_from(d),
                        ),
                        out.deep_view() == want.take(i as int),
                    decreases displays.len() - i,
                {
                    let ghost before = out.deep_view();
                    out.push(to_monitor(&displays[i]));
                    assert(out.deep_view() =~= before.push(want[i as int]));
                    assert(want.take(i as int + 1) =~= want.take(i as int).push(want[i as int]));
                    i += 1;
                }
                assert(want.take(want.len() as int) =~= want);
                Ok(out)
            },
        }
    }

    pub fn input_capabilities<
        R: Fn(&Vec<String>) -> Result<CommandRun, ProcError>,
        D: Fn() -> Option<Vec<bool>>,
    >(
        &self,
        monitor: &MonitorHandle,
        console: &mut DdcutilConsole<R, D>,
    ) -> (r: Result<InputCapabilities, BackendError>)
        ensures
            exists|detect: RunAnswer, full: RunAnswer, terse: RunAnswer|
                #[trigger] capabilities_asked(
                    old(console).calls(),
                    final(console).calls(),
                    monitor.deep_view(),
                    detect,
                    full,
                    terse,
                    capabilities_result(r),
                ),
    {
        let ghost h = monitor.deep_view();
        let ghost before = console.calls();
        let selected = self.selector(monitor, console);
        let ghost at = console.calls();
        let ghost detect = choose|detect: RunAnswer|
            #[trigger] selected_so(before, at, h, detect) && texts_result(selected) == selector_of(
                h,
                detect,
            );
        proof {
            lemma_asks(h, detect);
        }
        let selector = match selected {
            Ok(s) => s,
            Err(e) => {
                let r: Result<InputCapabilities, BackendError> = Err(e);
                assert(console.calls() =~= before + capability_calls(
                    h,
                    detect,
                    unasked(),
                    unasked(),
                ));
                assert(capabilities_asked(
                    before,
                    console.calls(),
                    h,
                    detect,
                    unasked(),
                    unasked(),
                    capabilities_result(r),
                ));
                return r;
            },
        };
        let full_args = with_args(&selector, &["capabilities"]);
        assert(texts(full_args@) =~= texts(selector@) + seq!["capabilities"@]);
        let full = call_ok(console, &full_args);
        let ghost between = console.calls();
        let ghost full_answer = choose|answer: RunAnswer|
            #[trigger] asked_so(at, between, texts(full_args@), answer) && command_result(full)
                == succeeded(answer);
        let done = match full {
            Ok(done) => done,
            Err(e) => {
                let r: Result<InputCapabilities, BackendError> = Err(e);
                assert(console.calls() =~= before + capability_calls(
                    h,
                    detect,
                    full_answer,
                    unasked(),
                ));
                assert(capabilities_asked(
                    before,
                    console.calls(),
                    h,
                    detect,
                    full_answer,
                    unasked(),
                    capabilities_result(r),
                ));
                return r;
            },
        };
        let parsed = match parse_capabilities(done.stdout.as_str()) {
            Ok(p) => p,
            Err(e) => {
                let r: Result<InputCapabilities, BackendError> = Err(
                    BackendError::UnexpectedOutput {
                        command: done.display_command(),
                        detail: e.to_string(),
                        raw: done.stdout.clone(),
                    },
                );
                assert(console.calls() =~= before + capability_calls(
                    h,
                    detect,
                    full_answer,
                    unasked(),
                ));
                assert(capabilities_asked(
                    before,
                    console.calls(),
                    h,
                    detect,
                    full_answer,
                    unasked(),
                    capabilities_result(r),
                ));
                return r;
            },
        };
        // The raw MCCS string is asked for again. It is parsed by the shared,
        // better-tested parser, and disagreement between the two is worth
        // seeing rather than hiding.
        let terse_args = with_args(&selector, &["capabilities", "--terse"]);
        assert(texts(terse_args@) =~= texts(selector@) + seq!["capabilities"@, "--terse"@]);
        let terse = call_ok(console, &terse_args);
        let ghost terse_answer = choose|answer: RunAnswer|
            #[trigger] asked_so(
                between,
                console.calls(),
                texts(terse_args@),
                answer,
            ) && command_result(terse) == succeeded(answer);
        let raw: Option<String> = match terse {
            Ok(t) => {
                let text = trim_str(t.stdout.as_str());
                let cs = chars_of(text.as_str());
                if starts_with_str(cs.as_slice(), "(") {
                    Some(text)
                } else {
                    None
                }
            },
            Err(_) => None,
        };
        let r: Result<InputCapabilities, BackendError> = Ok(
            merge_capabilities(&parsed, raw, done.stdout.clone()),
        );
        assert(console.calls() =~= before + capability_calls(h, detect, full_answer, terse_answer));
        assert(capabilities_asked(
            before,
            console.calls(),
            h,
            detect,
            full_answer,
            terse_answer,
            capabilities_result(r),
        ));
        r
    }

    pub fn read_input<
        R: Fn(&Vec<String>) -> Result<CommandRun, ProcError>,
        D: Fn() -> Option<Vec<bool>>,
    >(
        &self,
        monitor: &MonitorHandle,
        console: &mut DdcutilConsole<R, D>,
    ) -> (r: Result<InputReading, BackendError>)
        ensures
            exists|detect: RunAnswer, answer: RunAnswer|
                #[trigger] read_asked(
                    old(console).calls(),
                    final(console).calls(),
                    monitor.deep_view(),
                    detect,
                    answer,
                    reading_answer(r),
                ),
    {
        let ghost h = monitor.deep_view();
        let ghost before = console.calls();
        let selected = self.selector(monitor, console);
        let ghost at = console.calls();
        let ghost detect = choose|detect: RunAnswer|
            #[trigger] selected_so(before, at, h, detect) && texts_result(selected) == selector_of(
                h,
                detect,
            );
        proof {
            lemma_asks(h, detect);
        }
        let selector = match selected {
            Ok(s) => s,
            Err(e) => {
                let r: Result<InputReading, BackendError> = Err(e);
                assert(console.calls() =~= before + read_calls(h, detect, unasked()));
                assert(read_asked(
                    before,
                    console.calls(),
                    h,
                    detect,
                    unasked(),
                    reading_answer(r),
                ));
                return r;
            },
        };
        let args = with_args(&selector, &["getvcp", "60", "--terse"]);
        assert(texts(args@) =~= texts(selector@) + seq!["getvcp"@, "60"@, "--terse"@]);
        let out = call(console, &args);
        let ghost answer = choose|answer: RunAnswer|
            #[trigger] asked_so(at, console.calls(), texts(args@), answer) && command_result(out)
                == came_back(answer);
        let r = understand_reading(out);
        assert(console.calls() =~= before + read_calls(h, detect, answer));
        assert(read_asked(before, console.calls(), h, detect, answer, reading_answer(r)));
        r
    }

    pub fn set_input<
        R: Fn(&Vec<String>) -> Result<CommandRun, ProcError>,
        D: Fn() -> Option<Vec<bool>>,
    >(
        &self,
        monitor: &MonitorHandle,
        value: InputCode,
        console: &mut DdcutilConsole<R, D>,
    ) -> (r: Result<WriteOutcome, BackendError>)
        ensures
            exists|detect: RunAnswer, answer: RunAnswer|
                #[trigger] write_asked(
                    old(console).calls(),
                    final(console).calls(),
                    monitor.deep_view(),
                    value,
                    detect,
                    answer,
                    write_answer(r),
                ),
    {
        let ghost h = monitor.deep_view();
        let ghost before = console.calls();
        let selected = self.selector(monitor, console);
        let ghost at = console.calls();
        let ghost detect = choose|detect: RunAnswer|
            #[trigger] selected_so(before, at, h, detect) && texts_result(selected) == selector_of(
                h,
                detect,
            );
        proof {
            lemma_asks(h, detect);
        }
        let selector = match selected {
            Ok(s) => s,
            Err(e) => {
                let r: Result<WriteOutcome, BackendError> = Err(e);
                assert(console.calls() =~= before + write_calls(h, value, detect, unasked()));
                assert(write_asked(
                    before,
                    console.calls(),
                    h,
                    value,
                    detect,
                    unasked(),
                    write_answer(r),
                ));
                return r;
            },
        };
        let code = small_hex(value.get());
        let args = with_args(&selector, &["setvcp", "60", code.as_str()]);
        assert(texts(args@) =~= texts(selector@) + seq![
            "setvcp"@,
            "60"@,
            small_hex_byte(value.0),
        ]);
        let raw = console.write(&args, monitor.backend_id.as_str(), value);
        let ghost answer = run_answer(raw);
        let out = understand_run(raw);
        let r = understand_write(out);
        assert(console.calls() =~= before + write_calls(h, value, detect, answer));
        assert(write_asked(before, console.calls(), h, value, detect, answer, write_answer(r)));
        r
    }

    /// The findings of a health check. `devices` counts the I²C devices and
    /// those of them that cannot be opened, where there are such devices to be
    /// looked for.
    pub fn health(
        &self,
        version: Result<String, BackendError>,
        devices: Option<(usize, usize)>,
        monitors: Result<Vec<DetectedMonitor>, BackendError>,
    ) -> (r: BackendHealth)
        requires
            devices matches Some((all, unwritable)) ==> unwritable <= all,
        ensures
            r.deep_view() == (BackendHealthView {
                backend: "ddcutil-cli"@,
                tool_path: Some(self.program()),
                tool_version: match text_result(version) {
                    Ok(v) => Some(v),
                    Err(_) => None,
                },
                findings: seq![version_finding(text_result(version))] + device_findings(devices)
                    + monitor_findings(monitors_result(monitors)),
            }),
    {
        let mut findings: Vec<HealthFinding> = Vec::new();
        let mut tool_version: Option<String> = None;
        let ghost vr = text_result(version);
        match version {
            Ok(v) => {
                findings.push(HealthFinding::info(cat2("ddcutil reports: ", v.as_str()).as_str()));
                tool_version = Some(v);
            },
            Err(e) => {
                findings.push(
                    HealthFinding::blocker(
                        cat2("Could not run ddcutil: ", e.to_string().as_str()).as_str(),
                        "Install it with `sudo apt install ddcutil`.",
                    ),
                );
            },
        }
        assert(findings.deep_view() =~= seq![version_finding(vr)]);
        let ghost first = findings.deep_view();
        let mut about_devices = find_devices(devices);
        let ghost second = about_devices.deep_view();
        findings.append(&mut about_devices);
        assert(findings.deep_view() =~= first + second);
        let mut about_monitors = find_monitors(&monitors);
        let ghost third = about_monitors.deep_view();
        findings.append(&mut about_monitors);
        assert(findings.deep_view() =~= first + second + third);
        BackendHealth {
            backend: self.name().to_owned(),
            tool_path: Some(self.exe.clone()),
            tool_version,
            findings,
        }
    }
}

/// The reading that an answer to `getvcp` is.
pub fn understand_reading(out: Result<CommandRun, BackendError>) -> (r: Result<
    InputReading,
    BackendError,
>)
    ensures
        forall|answer: RunAnswer|
            command_result(out) == #[trigger] came_back(answer) ==> reading_answer(r)
                == reading_from(answer),
{
    let done = match out {
        Ok(done) => done,
        Err(e) => {
            return Err(e);
        },
    };
    if !done.success() {
        return match classify_failure(&done) {
            BackendError::MonitorNotFound { detail } => Err(
                BackendError::MonitorNotFound { detail },
            ),
            BackendError::Unsupported { .. } => Ok(InputReading::Unsupported),
            other => Ok(InputReading::ReadFailed { detail: other.to_string() }),
        };
    }
    match parse_getvcp_input(done.stdout.as_str()) {
        Ok(code) => Ok(InputReading::Value(code)),
        Err(ParseError::NotInputSource(_)) => Ok(InputReading::Unsupported),
        Err(e) => Err(
            BackendError::UnexpectedOutput {
                command: done.display_command(),
                detail: e.to_string(),
                raw: done.stdout.clone(),
            },
        ),
    }
}

/// What an answer to `setvcp` says of the write.
pub fn understand_write(out: Result<CommandRun, BackendError>) -> (r: Result<
    WriteOutcome,
    BackendError,
>)
    ensures
        forall|answer: RunAnswer|
            command_result(out) == #[trigger] came_back(answer) ==> write_answer(r)
                == outcome_from(answer),
{
    let done = match out {
        Ok(done) => done,
        Err(e) => {
            return Err(e);
        },
    };
    if done.success() {
        return Ok(WriteOutcome::Accepted);
    }
    match classify_failure(&done) {
        BackendError::MonitorNotFound { detail } => Err(BackendError::MonitorNotFound { detail }),
        other => Ok(WriteOutcome::Failed { detail: other.to_string() }),
    }
}

// ---------------------------------------------------------------------------
// Health
// ---------------------------------------------------------------------------

pub open spec fn version_finding(
    version: Result<Seq<char>, BackendErrorView>,
) -> HealthFindingView {
    match version {
        Ok(v) => HealthFindingView::info("ddcutil reports: "@ + v),
        Err(e) => HealthFindingView::blocker(
            "Could not run ddcutil: "@ + e.message(),
            "Install it with `sudo apt install ddcutil`."@,
        ),
    }
}

/// What is found about the I²C devices, where there are such to be looked for.
pub open spec fn device_findings(devices: Option<(usize, usize)>) -> Seq<HealthFindingView> {
    match devices {
        None => Seq::empty(),
        Some((all, unwritable)) => seq![
            if all == 0 {
                HealthFindingView::blocker(
                    "No /dev/i2c-* devices exist."@,
                    "Load the kernel module with `sudo modprobe i2c-dev`, and make it permanent with `echo i2c-dev | sudo tee /etc/modules-load.d/i2c-dev.conf`."@,
                )
            } else if unwritable == all {
                HealthFindingView::blocker(
                    "None of the "@ + decimal(all as nat)
                        + " /dev/i2c-* devices are accessible to this user."@,
                    permission_hint(),
                )
            } else if unwritable > 0 {
                HealthFindingView::info(
                    decimal((all - unwritable) as nat) + " of "@ + decimal(all as nat)
                        + " /dev/i2c-* devices are accessible to this user."@,
                )
            } else {
                HealthFindingView::info(
                    "All "@ + decimal(all as nat)
                        + " /dev/i2c-* devices are accessible without sudo."@,
                )
            },
        ],
    }
}

/// What is found about the displays.
pub open spec fn monitor_findings(
    monitors: Result<Seq<DetectedMonitorView>, BackendErrorView>,
) -> Seq<HealthFindingView> {
    match monitors {
        Err(e) => seq![
            HealthFindingView::blocker(
                "Could not detect displays: "@ + e.message(),
                permission_hint(),
            ),
        ],
        Ok(all) => {
            let ddc = all.filter(reachable()).len();
            let without_serial = all.filter(nameless()).len();
            seq![
                HealthFindingView::info(
                    decimal(all.len()) + " display(s) detected, "@ + decimal(ddc)
                        + " usable over DDC/CI"@,
                ),
            ] + (if ddc == 0 {
                seq![
                    HealthFindingView::blocker(
                        "No display is usable over DDC/CI."@,
                        "Enable DDC/CI in each monitor's on-screen menu, and check permissions."@,
                    ),
                ]
            } else {
                Seq::empty()
            }) + (if without_serial > 0 {
                seq![
                    HealthFindingView::warn(
                        decimal(without_serial) + " display(s) published no serial number."@,
                        "Identical panels without serials cannot be told apart reliably. `configure` will ask you to identify them physically."@,
                    ),
                ]
            } else {
                Seq::empty()
            })
        },
    }
}

fn find_devices(devices: Option<(usize, usize)>) -> (r: Vec<HealthFinding>)
    requires
        devices matches Some((all, unwritable)) ==> unwritable <= all,
    ensures
        r.deep_view() == device_findings(devices),
{
    let mut out: Vec<HealthFinding> = Vec::new();
    match devices {
        None => {},
        Some((all, unwritable)) => {
            let found = if all == 0 {
                HealthFinding::blocker(
                    "No /dev/i2c-* devices exist.",
                    "Load the kernel module with `sudo modprobe i2c-dev`, and make it permanent with `echo i2c-dev | sudo tee /etc/modules-load.d/i2c-dev.conf`.",
                )
            } else if unwritable == all {
                HealthFinding::blocker(
                    cat3(
                        "None of the ",
                        dec(all as u64).as_str(),
                        " /dev/i2c-* devices are accessible to this user.",
                    ).as_str(),
                    permission_hint_text(),
                )
            } else if unwritable > 0 {
                HealthFinding::info(
                    cat4(
                        dec((all - unwritable) as u64).as_str(),
                        " of ",
                        dec(all as u64).as_str(),
                        " /dev/i2c-* devices are accessible to this user.",
                    ).as_str(),
                )
            } else {
                HealthFinding::info(
                    cat3(
                        "All ",
                        dec(all as u64).as_str(),
                        " /dev/i2c-* devices are accessible without sudo.",
                    ).as_str(),
                )
            };
            out.push(found);
        },
    }
    assert(out.deep_view() =~= device_findings(devices));
    out
}

fn find_monitors(monitors: &Result<Vec<DetectedMonitor>, BackendError>) -> (r: Vec<HealthFinding>)
    ensures
        r.deep_view() == monitor_findings(monitors_result(*monitors)),
{
    let mut out: Vec<HealthFinding> = Vec::new();
    match monitors {
        Err(e) => {
            out.push(
                HealthFinding::blocker(
                    cat2("Could not detect displays: ", e.to_string().as_str()).as_str(),
                    permission_hint_text(),
                ),
            );
        },
        Ok(all) => {
            let (ddc, without_serial) = count_reachable(all);
            out.push(
                HealthFinding::info(
                    cat4(
                        dec(all.len() as u64).as_str(),
                        " display(s) detected, ",
                        dec(ddc as u64).as_str(),
                        " usable over DDC/CI",
                    ).as_str(),
                ),
            );
            if ddc == 0 {
                out.push(
                    HealthFinding::blocker(
                        "No display is usable over DDC/CI.",
                        "Enable DDC/CI in each monitor's on-screen menu, and check permissions.",
                    ),
                );
            }
            if without_serial > 0 {
                out.push(
                    HealthFinding::warn(
                        cat2(
                            dec(without_serial as u64).as_str(),
                            " display(s) published no serial number.",
                        ).as_str(),
                        "Identical panels without serials cannot be told apart reliably. `configure` will ask you to identify them physically.",
                    ),
                );
            }
        },
    }
    assert(out.deep_view() =~= monitor_findings(monitors_result(*monitors)));
    out
}

// ---------------------------------------------------------------------------
// What the adapter promises
// ---------------------------------------------------------------------------

/// A display is addressed by its serial or, where it has none, by the bus of
/// the only usable display at its connection. Its number is never used.
pub proof fn law_displays_are_addressed_by_identity(handle: MonitorHandleView, detect: RunAnswer)
    ensures
        selector_of(handle, detect) matches Ok(args) ==> {
            &&& args.len() >= 2
            &&& args[0] == "--sn"@ || args[0] == "--bus"@
            &&& has_serial(handle) ==> args[0] == "--sn"@ && args[1] == handle.serial->0
            &&& !has_serial(handle) ==> (displays_from(detect) matches Ok(displays)
                && displays.filter(usable_at(handle.backend_id)).len() == 1)
        },
{
}

/// A write is only called accepted when the command said so, and a monitor
/// that is not there is never reported as a failed write.
pub proof fn law_acceptance_is_an_exit_status(answer: RunAnswer)
    ensures
        outcome_from(answer) == Ok::<WriteOutcomeView, BackendErrorView>(
            WriteOutcomeView::Accepted,
        ) <==> (answer matches Ok(run) && run.success()),
        answer matches Ok(run) ==> (!run.success() && classified(run) is MonitorNotFound
            ==> outcome_from(answer) is Err),
{
}

// ---------------------------------------------------------------------------
// Laws of driving ddcutil
// ---------------------------------------------------------------------------

/// A bus is numbered by the digits behind the last `i2c-` of its device.
pub proof fn law_a_bus_is_numbered_by_its_device(before: Seq<char>, digits: Seq<char>)
    requires
        digits.len() > 0,
        all_digits(digits, 10),
        worth(digits, 10) <= u32::MAX,
    ensures
        bus_number_in(before + "i2c-"@ + digits) == Some(worth(digits, 10) as u32),
{
    let dev = before + "i2c-"@ + digits;
    let n = before.len() as int;
    reveal_strlit("i2c-");
    assert(dev.subrange(n, n + 4) =~= "i2c-"@);
    assert(occurs_at(dev, "i2c-"@, n));
    assert forall|at: int| at > n implies !#[trigger] occurs_at(dev, "i2c-"@, at) by {
        if occurs_at(dev, "i2c-"@, at) {
            let piece = dev.subrange(at, at + 4);
            assert(piece[0] == dev[at] && piece[3] == dev[at + 3]);
            assert("i2c-"@[0] == 'i' && "i2c-"@[3] == '-');
            assert(dev[at + 3] == digits[at + 3 - n - 4]);
            assert(0 <= digit_worth(digits[at - n - 1]));
        }
    }
    assert(last_at(dev, "i2c-"@, n));
    let at = choose|at: int| last_at(dev, "i2c-"@, at);
    assert(at == n);
    assert(dev.skip(n + 4) =~= digits);
    assert(0 <= digit_worth(digits[0]) && 0 <= digit_worth(digits[digits.len() - 1]));
    law_a_text_is_trimmed_one_way(digits, 0, digits.len() as int);
    assert(digits.subrange(0, digits.len() as int) =~= digits);
    law_digits_are_read_for_their_worth(digits, 10, u32::MAX as nat);
}

/// The only usable display at a connection is addressed by the number of its
/// own bus. Where no display, or more than one, is there, none is addressed.
pub proof fn law_the_only_display_at_a_connection_is_addressed(
    handle: MonitorHandleView,
    displays: Seq<DetectedDisplayView>,
    i: int,
    before: Seq<char>,
    digits: Seq<char>,
)
    requires
        0 <= i < displays.len(),
        !displays[i].invalid && displays[i].stable_id() == handle.backend_id,
        displays[i].i2c_bus == Some(before + "i2c-"@ + digits),
        digits.len() > 0,
        all_digits(digits, 10),
        worth(digits, 10) <= u32::MAX,
    ensures
        ({
            let other = exists|j: int|
                0 <= j < displays.len() && j != i && !(#[trigger] displays[j]).invalid
                    && displays[j].stable_id() == handle.backend_id;
            &&& !other ==> port_selector(handle, displays) == Ok::<
                Seq<Seq<char>>,
                BackendErrorView,
            >(seq!["--bus"@, decimal(worth(digits, 10) as nat)])
            &&& other ==> port_selector(handle, displays) is Err
        }),
{
    law_a_bus_is_numbered_by_its_device(before, digits);
    law_digits_are_read_for_their_worth(digits, 10, u32::MAX as nat);
    let p = usable_at(handle.backend_id);
    if exists|j: int|
        0 <= j < displays.len() && j != i && !(#[trigger] displays[j]).invalid
            && displays[j].stable_id() == handle.backend_id {
        let j = choose|j: int|
            0 <= j < displays.len() && j != i && !(#[trigger] displays[j]).invalid
                && displays[j].stable_id() == handle.backend_id;
        if i < j {
            lemma_filter_two(displays, p, i, j);
        } else {
            lemma_filter_two(displays, p, j, i);
        }
    } else {
        lemma_filter_one(displays, p, i);
    }
}

/// Nothing is addressed at a connection where no usable display is.
pub proof fn law_an_empty_connection_is_refused(
    handle: MonitorHandleView,
    displays: Seq<DetectedDisplayView>,
)
    requires
        forall|j: int|
            0 <= j < displays.len() ==> (#[trigger] displays[j]).invalid || displays[j].stable_id()
                != handle.backend_id,
    ensures
        port_selector(handle, displays) matches Err(e) && e is MonitorNotFound,
{
    lemma_filter_no_one(displays, usable_at(handle.backend_id));
}

/// A monitor with a serial is addressed by it, and by its model where that is
/// known too; by nothing else.
pub proof fn law_a_serial_addresses_its_monitor(handle: MonitorHandleView, detect: RunAnswer)
    requires
        handle.serial matches Some(s) && s.len() > 0,
    ensures
        selector_of(handle, detect) matches Ok(args) && {
            &&& args.len() == 2 || args.len() == 4
            &&& args[0] == "--sn"@ && args[1] == handle.serial->0
            &&& args.len() == 4 <==> (handle.model matches Some(m) && m.len() > 0)
            &&& args.len() == 4 ==> args[2] == "--model"@ && args[3] == handle.model->0
        },
        select_calls(handle, detect).len() == 0,
{
}

/// A write is one command: the address, then feature 60, then the value in two
/// hexadecimal digits. A reading asks the same address for the same feature.
pub proof fn law_a_write_sets_feature_60(
    handle: MonitorHandleView,
    value: InputCode,
    detect: RunAnswer,
    answer: RunAnswer,
)
    ensures
        selector_of(handle, detect) matches Ok(selector) ==> {
            &&& write_calls(handle, value, detect, answer).last() matches ToolCall::Wrote {
                id,
                code,
                args,
                answer: got,
            } && {
                &&& id == handle.backend_id && code == value && got == answer
                &&& args.len() == selector.len() + 3
                &&& args.take(selector.len() as int) == selector
                &&& args[selector.len() as int] == "setvcp"@
                &&& args[1int + selector.len()] == seq!['6', '0']
                &&& args[2int + selector.len()].len() == 4
                &&& args[2int + selector.len()].take(2) == seq!['0', 'x']
                &&& all_digits(args[2int + selector.len()].skip(2), 16)
                &&& worth(args[2int + selector.len()].skip(2), 16) == value.0
            }
            &&& read_calls(handle, detect, answer).last() matches ToolCall::Ran(args, got) && {
                &&& got == answer
                &&& args == selector + seq!["getvcp"@, seq!['6', '0'], "--terse"@]
            }
        },
        selector_of(handle, detect) is Err ==> forall|i: int|
            0 <= i < write_calls(handle, value, detect, answer).len() ==> (#[trigger] write_calls(
                handle,
                value,
                detect,
                answer,
            )[i]) == ToolCall::Ran(seq!["detect"@], detect),
{
    reveal_strlit("60");
    assert("60"@ =~= seq!['6', '0']);
    if let Ok(selector) = selector_of(handle, detect) {
        let args = selector + seq!["setvcp"@, "60"@, small_hex_byte(value.0)];
        assert(args.take(selector.len() as int) =~= selector);
        law_a_small_byte_is_worth_its_digits(value.0);
        assert(args[2int + selector.len()] == small_hex_byte(value.0));
    }
}

/// A display is reported as ddcutil found it, and as switchable unless ddcutil
/// said that it does not support DDC.
pub proof fn law_a_display_is_reported_as_it_was_found(d: DetectedDisplayView)
    ensures
        ({
            let m = monitor_from(d).identity;
            &&& m.backend_id == d.stable_id()
            &&& m.discovery_index == d.display_number
            &&& m.manufacturer == d.manufacturer && m.model == d.model
            &&& m.serial matches Some(s) ==> s.len() > 0 && d.serial == Some(s)
            &&& m.serial is None ==> (d.serial matches Some(s) ==> s.len() == 0)
            &&& m.transport is DdcCi <==> !d.invalid
        }),
{
}

/// A reading that succeeded gives the input that was printed, and one whose
/// output does not speak of the feature says that there is none. A command that
/// did not even run is an error.
pub proof fn law_a_reading_gives_what_was_printed(answer: RunAnswer)
    ensures
        answer is Err ==> reading_from(answer) is Err && outcome_from(answer) is Err,
        answer matches Ok(run) ==> (run.status == Some(0i32) ==> {
            &&& vcp_input(run.stdout) matches Ok(code) ==> reading_from(answer) == Ok::<
                InputReadingView,
                BackendErrorView,
            >(InputReadingView::Value(code))
            &&& vcp_input(run.stdout) matches Err(ParseErrorView::NotInputSource(_))
                ==> reading_from(answer) == Ok::<InputReadingView, BackendErrorView>(
                InputReadingView::Unsupported,
            )
            &&& vcp_input(run.stdout) matches Err(ParseErrorView::BadVcpValue(_))
                ==> reading_from(answer) is Err
            &&& outcome_from(answer) == Ok::<WriteOutcomeView, BackendErrorView>(
                WriteOutcomeView::Accepted,
            )
        }),
        answer matches Ok(run) && run.status != Some(0i32) ==> {
            &&& !(reading_from(answer) matches Ok(InputReadingView::Value(_)))
            &&& !(outcome_from(answer) matches Ok(WriteOutcomeView::Accepted))
        },
{
}

/// What ddcutil said decides what became of it: a display that it did not find
/// is not found, a feature that it does not have is unsupported, and anything
/// else is a failed command with the status that it gave.
pub proof fn law_a_failure_is_what_ddcutil_said(run: CommandRunView, lower: Seq<char>)
    ensures
        ({
            let denied = has_text(lower, "permission denied"@) || has_text(lower, "eacces"@);
            let no_device = has_text(lower, "no such file"@) && has_text(lower, "i2c"@);
            let no_display = has_text(lower, "display not found"@) || has_text(
                lower,
                "no display found"@,
            ) || has_text(lower, "invalid display"@);
            let no_feature = has_text(lower, "unsupported feature"@) || has_text(
                lower,
                "feature not supported"@,
            );
            let e = failure_of(run, lower);
            &&& e is PermissionDenied <==> denied || no_device
            &&& e is MonitorNotFound <==> no_display && !denied && !no_device
            &&& e is Unsupported <==> no_feature && !no_display && !denied && !no_device
            &&& e matches BackendErrorView::CommandFailed { command, status, stderr } ==> status
                == run.status && command == run.command()
            &&& !denied && !no_device && !no_display && !no_feature ==> e is CommandFailed
        }),
{
}

/// The inputs a monitor lists are those that ddcutil read out, each with its
/// code; the raw string is asked only where ddcutil read out none.
pub proof fn law_listed_inputs_come_before_raw_ones(
    parsed: ParsedCapabilitiesView,
    raw: Option<Seq<char>>,
    stdout: Seq<char>,
)
    ensures
        ({
            let c = capabilities_from(parsed, raw, stdout);
            &&& parsed.options.len() > 0 ==> {
                &&& c.options.len() == parsed.options.len()
                &&& forall|i: int|
                    0 <= i < c.options.len() ==> (#[trigger] c.options[i]).code
                        == parsed.options[i].0
            }
            &&& parsed.options.len() == 0 ==> match raw {
                Some(caps) => match input_values(caps) {
                    Ok(Some(values)) => {
                        &&& c.options.len() == values.len()
                        &&& forall|i: int|
                            0 <= i < values.len() ==> (#[trigger] c.options[i]).code == InputCode(
                                values[i],
                            )
                    },
                    _ => c.options.len() == 0,
                },
                None => c.options.len() == 0,
            }
            &&& c.feature_present <==> parsed.feature_present || c.options.len() > 0
            &&& c.raw_capabilities == raw && c.raw_output == stdout
        }),
{
}

/// A tool that was named is used where it is a file and never replaced; the one
/// found is used only where none was named.
pub proof fn law_a_tool_that_was_named_is_used(
    explicit: Option<Seq<char>>,
    is_file: bool,
    found: Option<Seq<char>>,
)
    ensures
        located(explicit, is_file, found) is Ok <==> (explicit is Some && is_file) || (
        explicit is None && found is Some),
        located(explicit, is_file, found) matches Ok(path) ==> Some(path) == (
        if explicit is Some {
            explicit
        } else {
            found
        }),
{
}

/// Nothing works without a device to talk through, or with none that this user
/// may open; one that opens is enough.
pub proof fn law_devices_block_when_none_opens(all: usize, unwritable: usize)
    requires
        unwritable <= all,
    ensures
        device_findings(Some((all, unwritable))).len() == 1,
        device_findings(Some((all, unwritable)))[0].severity is Blocker <==> all == unwritable,
        device_findings(Some((all, unwritable)))[0].severity is Info <==> all > unwritable,
{
}

} // verus!

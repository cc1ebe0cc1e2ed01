//! The commands that change inputs or tell about them.
//!
//! The vocabulary is monitors and inputs. Nothing here knows or asks what is
//! plugged into an input; that meaning lives in the name a person gives an
//! action.

use vstd::prelude::*;

use crate::actions::{law_an_action_is_valid_when_it_is_whole, Action, ActionView};
use crate::backend::{wrote_only, MonitorBackend};
use crate::clock::Clock;
use crate::config::{
    has_code, is_asked_for, law_a_monitor_answers_to_its_full_names,
    law_an_action_answers_to_its_full_name, named, Config, ConfigView, MonitorConfigView,
    MonitorInputView,
};
use crate::digits::{dec, decimal};
use crate::doctor::Told;
use crate::eventlog::{fields_view, took, EventLog};
use crate::inventory::{Binding, BindingProblemView, BindingSet, BindingSetView, BindingView};
use crate::listing::opt_config;
use crate::page::{
    bullet_lines, heading_lines, more_line, nothing, recovery_lines, said, told, warning_line,
    LineView, Page,
};
use crate::seqs::{first_index, lemma_first_index};
use crate::switch::{
    apply_one, exchanges, exit_code_of, law_an_exit_code_counts_failures,
    law_exit_codes_tell_failures, logged, plan_set_input, planned, set_event, set_report,
    status_of, status_text, waits_for, writes, Answers, ApplyReport, ExecOptions, GuardError,
    LastRequest, LastRequestView, PlanError, PlanErrorView, PlannedSet, PlannedSetView, StepReport,
    StepReportView,
};
use crate::text::{
    cat2, cat3, cat4, cat5, cat6, has_text, is_typed, join, joined, lemma_has_text_between, pad,
    padded, repeated, same, texts,
};
use crate::types::{
    code_in, code_text, law_a_code_is_written_for_its_worth, DetectedMonitor, InputCode,
    InputReading, InputReadingView,
};

verus! {

// ---------------------------------------------------------------------------
// Needing a configuration
// ---------------------------------------------------------------------------

pub open spec fn no_config_text(path: Seq<char>) -> Seq<char> {
    "no configuration at "@ + path + ". Run `desktop-switcher configure` first."@
}

/// The configuration, for a command that cannot do without.
pub fn require_config<'a>(config: Option<&'a Config>, path: &str) -> (r: Result<
    &'a Config,
    String,
>)
    ensures
        match (config, r) {
            (Some(c), Ok(k)) => c == k,
            (None, Err(e)) => e@ == no_config_text(path@),
            _ => false,
        },
{
    match config {
        Some(c) => Ok(c),
        None => Err(
            cat3("no configuration at ", path, ". Run `desktop-switcher configure` first."),
        ),
    }
}

// ---------------------------------------------------------------------------
// set
// ---------------------------------------------------------------------------

/// How a request to set an input begins.
#[derive(Debug, PartialEq, Eq)]
pub enum SetStart {
    /// The same was asked for a moment ago.
    Repeat(Told),
    /// Go on. `guarded` asks for the lock to be held meanwhile: inside an
    /// action the whole sequence is guarded, and taking it again would
    /// deadlock.
    Go { code: InputCode, request: String, guarded: bool },
}

pub enum SetStartView {
    Repeat,
    Go { code: InputCode, request: Seq<char>, guarded: bool },
}

pub open spec fn request_text(monitor: Seq<char>, code: InputCode) -> Seq<char> {
    "set "@ + monitor + " "@ + code_text(code)
}

/// How a request begins, or why it cannot. A repeat within the time in which
/// repeats are ignored goes no further, unless it is a dry run or forced.
pub open spec fn set_start(
    config: Option<ConfigView>,
    path: Seq<char>,
    monitor: Seq<char>,
    code: Seq<char>,
    dry_run: bool,
    force: bool,
    last: LastRequestView,
    now: int,
) -> Result<SetStartView, Seq<char>> {
    match config {
        None => Err(no_config_text(path)),
        Some(config) => match code_in(code) {
            Err(e) => Err(e.message()),
            Ok(code) => {
                let request = request_text(monitor, code);
                if !dry_run && !force && last.repeated_at(request, now, config.dedupe_ms as int) {
                    Ok(SetStartView::Repeat)
                } else {
                    Ok(SetStartView::Go { code, request, guarded: !dry_run && !force })
                }
            },
        },
    }
}

pub open spec fn repeat_lines() -> Seq<LineView> {
    said("Already requested that a moment ago; ignoring the repeat."@)
}

pub open spec fn set_start_view(r: Result<SetStart, String>) -> Result<SetStartView, Seq<char>> {
    match r {
        Ok(SetStart::Repeat(_)) => Ok(SetStartView::Repeat),
        Ok(SetStart::Go { code, request, guarded }) => Ok(
            SetStartView::Go { code, request: request@, guarded },
        ),
        Err(e) => Err(e@),
    }
}

/// Begins a request to set an input, made at `now_ms`.
pub fn begin_set(
    config: Option<&Config>,
    path: &str,
    monitor: &str,
    code: &str,
    dry_run: bool,
    force: bool,
    last: &LastRequest,
    now_ms: u64,
) -> (r: Result<SetStart, String>)
    ensures
        set_start_view(r) == set_start(
            opt_config(config),
            path@,
            monitor@,
            code@,
            dry_run,
            force,
            last.deep_view(),
            now_ms as int,
        ),
        r matches Ok(SetStart::Repeat(t)) ==> t.page@ == repeat_lines() && t.code == 0,
{
    let config = match require_config(config, path) {
        Ok(c) => c,
        Err(e) => {
            return Err(e);
        },
    };
    match InputCode::from_str(code) {
        Err(e) => Err(e.to_string()),
        Ok(code) => {
            let request = cat4("set ", monitor, " ", code.to_string().as_str());
            if !dry_run && !force && last.is_duplicate_at(
                request.as_str(),
                now_ms,
                config.dedupe_ms,
            ) {
                let mut page = Page::new();
                page.put("Already requested that a moment ago; ignoring the repeat.");
                assert(page@ =~= repeat_lines());
                return Ok(SetStart::Repeat(Told { page, code: 0 }));
            }
            Ok(SetStart::Go { code, request, guarded: !dry_run && !force })
        },
    }
}

/// Another change is under way, so this one is refused: nothing was done.
pub fn busy(e: &GuardError) -> (r: Told)
    ensures
        r.page@ == told("error: "@ + e.deep_view().message()),
        r.code == 2,
{
    let mut page = Page::new();
    page.tell(cat2("error: ", e.to_string().as_str()));
    assert(page@ =~= told("error: "@ + e.deep_view().message()));
    Told { page, code: 2 }
}

pub open spec fn refusal_lines(e: PlanErrorView) -> Seq<LineView> {
    told("Refusing to change the input.\n\n"@ + e.message()) + recovery_lines()
}

/// A request that cannot be planned is refused, and says why.
pub fn refused(e: &PlanError) -> (r: Told)
    ensures
        r.page@ == refusal_lines(e.deep_view()),
        r.code == 2,
{
    let mut page = Page::new();
    page.tell(cat2("Refusing to change the input.\n\n", e.to_string().as_str()));
    page.recovery_note();
    assert(page@ =~= refusal_lines(e.deep_view()));
    Told { page, code: 2 }
}

pub open spec fn unadvertised_lines(plan: PlannedSetView) -> Seq<LineView> {
    if plan.advertised {
        nothing()
    } else {
        warning_line(
            code_text(plan.code)
                + " is not in this monitor's advertised input list. That can still be correct, since capability strings are often wrong, but it may do nothing or blank the screen."@,
        )
    }
}

fn warn_unadvertised(page: &mut Page, plan: &PlannedSet)
    ensures
        final(page)@ == old(page)@ + unadvertised_lines(plan.deep_view()),
{
    if !plan.advertised {
        page.warn(
            cat2(
                plan.code.to_string().as_str(),
                " is not in this monitor's advertised input list. That can still be correct, since capability strings are often wrong, but it may do nothing or blank the screen.",
            ).as_str(),
        );
    }
    assert(page@ =~= old(page)@ + unadvertised_lines(plan.deep_view()));
}

/// A step as the report tells it.
pub open spec fn step_lines(step: StepReportView, dry_run: bool) -> Seq<LineView> {
    said(
        "  "@ + padded(step.label, 26) + " "@ + code_text(step.requested) + " -> "@ + if dry_run {
            "would be set (dry run)"@
        } else {
            step.outcome.text()
        },
    ) + match step.after {
        Some(after) => if after is Value {
            nothing()
        } else {
            said("  "@ + padded(""@, 26) + "   read-back: "@ + after.text())
        },
        None => nothing(),
    }
}

pub open spec fn steps_lines(steps: Seq<StepReportView>, dry_run: bool) -> Seq<LineView>
    decreases steps.len(),
{
    if steps.len() == 0 {
        nothing()
    } else {
        steps_lines(steps.drop_last(), dry_run) + step_lines(steps.last(), dry_run)
    }
}

/// The report on what was set: each step, then what it all comes to, then,
/// where anything failed, how to recover.
pub open spec fn report_lines(steps: Seq<StepReportView>, dry_run: bool) -> Seq<LineView> {
    steps_lines(steps, dry_run) + if dry_run {
        nothing()
    } else {
        said("\n  "@ + status_text(status_of(steps))) + if exit_code_of(status_of(steps)) != 0 {
            recovery_lines()
        } else {
            nothing()
        }
    }
}

fn tell_step(page: &mut Page, step: &StepReport, dry_run: bool)
    ensures
        final(page)@ == old(page)@ + step_lines(step.deep_view(), dry_run),
{
    let detail = if dry_run {
        "would be set (dry run)".to_owned()
    } else {
        step.outcome.to_string()
    };
    page.say(
        cat6(
            "  ",
            pad(step.label.as_str(), 26).as_str(),
            " ",
            step.requested.to_string().as_str(),
            " -> ",
            detail.as_str(),
        ),
    );
    if let Some(after) = &step.after {
        let is_value = match after {
            InputReading::Value(_) => true,
            _ => false,
        };
        if !is_value {
            page.say(
                cat4(
                    "  ",
                    pad("", 26).as_str(),
                    "   read-back: ",
                    after.to_string().as_str(),
                ),
            );
        }
    }
    assert(page@ =~= old(page)@ + step_lines(step.deep_view(), dry_run));
}

/// Tells a report.
pub fn print_report(page: &mut Page, report: &ApplyReport)
    ensures
        final(page)@ == old(page)@ + report_lines(report.steps.deep_view(), report.dry_run),
{
    let ghost all = report.steps.deep_view();
    let ghost dry = report.dry_run;
    let mut i: usize = 0;
    assert(all.take(0) =~= Seq::<StepReportView>::empty());
    assert(page@ =~= old(page)@ + steps_lines(all.take(0), dry));
    while i < report.steps.len()
        invariant
            i <= report.steps@.len(),
            all == report.steps.deep_view(),
            dry == report.dry_run,
            page@ == old(page)@ + steps_lines(all.take(i as int), dry),
        decreases report.steps@.len() - i,
    {
        let ghost next = all.take(i as int + 1);
        assert(next.drop_last() =~= all.take(i as int));
        assert(next.last() == report.steps@[i as int].deep_view());
        tell_step(page, &report.steps[i], report.dry_run);
        assert(page@ =~= old(page)@ + steps_lines(next, dry));
        i += 1;
    }
    assert(all.take(all.len() as int) =~= all);
    if !report.dry_run {
        let status = report.status();
        page.say(cat2("\n  ", status.to_string().as_str()));
        if report.exit_code() != 0 {
            page.recovery_note();
        }
    }
    assert(page@ =~= old(page)@ + report_lines(all, dry));
}

/// The settings of a set: the pause comes from the configuration, and the
/// monitor is always read back.
pub open spec fn set_options(config: ConfigView, dry_run: bool) -> ExecOptions {
    ExecOptions { settle_ms: config.settle_ms, read_back: true, dry_run, skip_reported: false }
}

/// What came of a request to set an input.
#[derive(Debug, PartialEq, Eq)]
pub struct Carried {
    pub told: Told,
    /// The report on the set, unless it was refused.
    pub step: Option<StepReport>,
}

/// What came of a plan that was carried out, from what the backend answered.
pub open spec fn carried(r: Carried, plan: PlannedSetView, opts: ExecOptions, a: Answers) -> bool {
    let step = set_report(plan, opts, a);
    &&& r.step matches Some(s) && s.deep_view() == step
    &&& r.told.page@ == unadvertised_lines(plan) + report_lines(seq![step], opts.dry_run)
    &&& r.told.code == exit_code_of(status_of(seq![step]))
}

/// Sets a monitor's input, once nothing stands in the way any more: plans it
/// for the displays there are, carries it out, and tells what happened. A
/// request that cannot be planned writes nothing.
pub fn set_input<B: MonitorBackend, P: Fn(u64)>(
    config: &Config,
    detected: &[DetectedMonitor],
    monitor: &str,
    code: InputCode,
    dry_run: bool,
    backend: &mut B,
    log: &mut EventLog,
    clock: &mut Clock<P>,
) -> (r: Carried)
    ensures
        match planned(config.deep_view(), detected.deep_view(), monitor@, code) {
            Err(e) => {
                &&& r.step is None
                &&& r.told.page@ == refusal_lines(e)
                &&& r.told.code == 2
                &&& *final(log) == *old(log)
                &&& final(backend).sent() == old(backend).sent()
                &&& final(backend).heard() == old(backend).heard()
                &&& final(clock).waits() == old(clock).waits()
            },
            Ok(plan) => exists|a: Answers|
                {
                    &&& #[trigger] carried(r, plan, set_options(config.deep_view(), dry_run), a)
                    &&& logged(
                        *old(log),
                        *final(log),
                        set_event(plan, set_options(config.deep_view(), dry_run), a),
                    )
                    &&& if writes(plan, set_options(config.deep_view(), dry_run), a) {
                        wrote_only(
                            old(backend).sent(),
                            final(backend).sent(),
                            plan.handle.backend_id,
                            code,
                        )
                    } else {
                        final(backend).sent() == old(backend).sent()
                    }
                    &&& final(backend).heard() == old(backend).heard() + exchanges(
                        plan,
                        set_options(config.deep_view(), dry_run),
                        a,
                    )
                    &&& final(clock).waits() == old(clock).waits() + waits_for(
                        plan,
                        set_options(config.deep_view(), dry_run),
                        a,
                        old(backend).heard().len(),
                    )
                },
        },
{
    let ghost given = code;
    let plan = match plan_set_input(config, detected, monitor, code) {
        Ok(p) => p,
        Err(e) => {
            return Carried { told: refused(&e), step: None };
        },
    };
    let mut page = Page::new();
    warn_unadvertised(&mut page, &plan);
    let opts = ExecOptions {
        settle_ms: config.settle_ms,
        read_back: true,
        dry_run,
        skip_reported: false,
    };
    let ghost p = plan.deep_view();
    let step = apply_one(&plan, backend, opts, log, clock);
    let ghost a = choose|a: Answers|
        {
            &&& step.deep_view() == #[trigger] set_report(p, opts, a)
            &&& logged(*old(log), *log, set_event(p, opts, a))
            &&& if writes(p, opts, a) {
                wrote_only(
                    old(backend).sent(),
                    backend.sent(),
                    plan.handle.backend_id@,
                    plan.code,
                )
            } else {
                backend.sent() == old(backend).sent()
            }
            &&& backend.heard() == old(backend).heard() + exchanges(p, opts, a)
            &&& clock.waits() == old(clock).waits() + waits_for(
                p,
                opts,
                a,
                old(backend).heard().len(),
            )
        };
    let kept = step.clone();
    let mut steps: Vec<StepReport> = Vec::new();
    steps.push(step);
    let report = ApplyReport { steps, dry_run };
    assert(report.steps.deep_view() =~= seq![set_report(p, opts, a)]);
    print_report(&mut page, &report);
    let code = report.exit_code();
    let r = Carried { told: Told { page, code }, step: Some(kept) };
    assert(r.told.page@ =~= unadvertised_lines(p) + report_lines(
        seq![set_report(p, opts, a)],
        dry_run,
    ));
    assert(p.code == plan.code);
    assert(opts == set_options(config.deep_view(), dry_run));
    assert(carried(r, p, opts, a));
    assert(logged(*old(log), *log, set_event(p, opts, a)));
    assert(plan.code == given);
    r
}

// ---------------------------------------------------------------------------
// toggle
// ---------------------------------------------------------------------------

/// What a toggle says before it sets the input it decided on.
pub open spec fn toggle_text(
    label: Seq<char>,
    reported: Option<InputCode>,
    target: InputCode,
) -> Seq<char> {
    "  "@ + label + " reports "@ + match reported {
        Some(c) => code_text(c),
        None => "nothing readable"@,
    } + "; toggling to "@ + code_text(target)
}

/// Says which input a toggle decided on.
pub fn toggle_line(label: &str, reported: Option<InputCode>, target: InputCode) -> (r: String)
    ensures
        r@ == toggle_text(label@, reported, target),
{
    let now = match reported {
        Some(c) => c.to_string(),
        None => "nothing readable".to_owned(),
    };
    cat6(
        "  ",
        label,
        " reports ",
        now.as_str(),
        "; toggling to ",
        target.to_string().as_str(),
    )
}

// ---------------------------------------------------------------------------
// Learning
// ---------------------------------------------------------------------------

pub open spec fn silence_note(day: Seq<char>) -> Seq<char> {
    "On "@ + day
        + ", the monitor stopped answering after this was selected. That is normal if another computer is on it, and is what it looks like when nothing is."@
}

/// The monitor went silent right after the write.
pub open spec fn vanished(step: StepReportView) -> bool {
    step.after matches Some(r) && r is UnavailableAfterSwitch
}

/// A configuration with one input's note changed.
pub open spec fn with_note(
    config: ConfigView,
    at: int,
    input: int,
    note: Seq<char>,
) -> ConfigView {
    let m = config.monitors[at];
    let i = MonitorInputView { note: Some(note), ..m.inputs[input] };
    ConfigView {
        monitors: config.monitors.update(
            at,
            MonitorConfigView { inputs: m.inputs.update(input, i), ..m },
        ),
        ..config
    }
}

/// The one thing a switch teaches about an input unattended.
///
/// A monitor that goes silent right after a write has moved somewhere that is
/// not this computer, possibly an input with nothing on it, and that is worth
/// remembering before someone sends it there again by reflex. A monitor that
/// reads the value back teaches nothing: only a person watching the screen can
/// raise an input's evidence.
pub open spec fn learned(
    config: ConfigView,
    monitor: Seq<char>,
    code: InputCode,
    step: StepReportView,
    day: Seq<char>,
) -> Option<ConfigView> {
    match first_index(config.monitors, named(monitor)) {
        None => None,
        Some(at) => match first_index(config.monitors[at].inputs, has_code(code)) {
            None => None,
            Some(input) => if vanished(step) && config.monitors[at].inputs[input].note != Some(
                silence_note(day),
            ) {
                Some(with_note(config, at, input, silence_note(day)))
            } else {
                None
            },
        },
    }
}

pub open spec fn config_view(o: Option<Config>) -> Option<ConfigView> {
    match o {
        Some(c) => Some(c.deep_view()),
        None => None,
    }
}

/// The configuration to save after a set, where there is something to
/// remember.
pub fn learn_from(
    config: &Config,
    monitor: &str,
    code: InputCode,
    step: &StepReport,
    day: &str,
) -> (r: Option<Config>)
    ensures
        config_view(r) == learned(
            config.deep_view(),
            monitor@,
            code,
            step.deep_view(),
            day@,
        ),
{
    let ghost c = config.deep_view();
    proof {
        lemma_first_index(c.monitors, named(monitor@));
    }
    let existing = match config.monitor(monitor) {
        Some(m) => {
            proof {
                lemma_first_index(m.deep_view().inputs, has_code(code));
            }
            match m.input(code) {
                Some(i) => i,
                None => {
                    return None;
                },
            }
        },
        None => {
            return None;
        },
    };
    let gone = match &step.after {
        Some(InputReading::UnavailableAfterSwitch { .. }) => true,
        _ => false,
    };
    if !gone {
        return None;
    }
    let note = cat3(
        "On ",
        day,
        ", the monitor stopped answering after this was selected. That is normal if another computer is on it, and is what it looks like when nothing is.",
    );
    if let Some(had) = &existing.note {
        if same(had.as_str(), note.as_str()) {
            return None;
        }
    }
    let mut next = config.clone();
    if let Some(m) = next.monitor_mut(monitor) {
        if let Some(slot) = m.input_mut(code) {
            slot.note = Some(note);
        }
    }
    Some(next)
}

/// What is learned never raises an input's evidence: every input keeps the
/// verification it had.
pub proof fn law_a_switch_is_no_evidence(
    config: ConfigView,
    monitor: Seq<char>,
    code: InputCode,
    step: StepReportView,
    day: Seq<char>,
    at: int,
    input: int,
)
    requires
        0 <= at < config.monitors.len(),
        0 <= input < config.monitors[at].inputs.len(),
    ensures
        learned(config, monitor, code, step, day) matches Some(next) ==> {
            &&& next.monitors.len() == config.monitors.len()
            &&& next.monitors[at].inputs.len() == config.monitors[at].inputs.len()
            &&& next.monitors[at].inputs[input].verification
                == config.monitors[at].inputs[input].verification
            &&& next.monitors[at].inputs[input].input_code
                == config.monitors[at].inputs[input].input_code
            &&& next.monitors[at].inputs[input].label == config.monitors[at].inputs[input].label
            &&& next.actions == config.actions
        },
        !vanished(step) ==> learned(config, monitor, code, step, day) is None,
{
    lemma_first_index(config.monitors, named(monitor));
    if let Some(i) = first_index(config.monitors, named(monitor)) {
        lemma_first_index(config.monitors[i].inputs, has_code(code));
    }
}

// ---------------------------------------------------------------------------
// status
// ---------------------------------------------------------------------------

/// The name of the input a monitor reports, where it has one.
pub open spec fn name_beside(m: MonitorConfigView, reading: InputReadingView) -> Seq<char> {
    match reading.value() {
        None => ""@,
        Some(c) => match m.input(c) {
            None => ""@,
            Some(i) => "  ("@ + i.display_name() + ")"@,
        },
    }
}

pub open spec fn observed_text(b: BindingView, reading: InputReadingView) -> Seq<char> {
    "  "@ + padded(b.monitor.label, 26) + " "@ + reading.text() + name_beside(b.monitor, reading)
}

pub open spec fn observed_lines(bound: Seq<BindingView>, readings: Seq<InputReadingView>) -> Seq<
    LineView,
> {
    Seq::new(bound.len(), |i: int| LineView::Out(observed_text(bound[i], readings[i])))
}

pub open spec fn problem_messages(ps: Seq<BindingProblemView>) -> Seq<LineView> {
    ps.map_values(|p: BindingProblemView| LineView::Out("  "@ + p.message()))
}

/// What each monitor shows, and beside it, apart, what was last asked for.
pub open spec fn status_lines(
    set: BindingSetView,
    readings: Seq<InputReadingView>,
    last: Option<Seq<char>>,
) -> Seq<LineView> {
    heading_lines("Observed now"@) + observed_lines(set.bound, readings) + problem_messages(
        set.problems,
    ) + heading_lines("Last requested by this tool"@) + said(
        "  This is intent, not proof. Inputs can also be changed with the monitor"@,
    ) + said("  buttons, or by any other computer attached to them.\n"@) + said(
        match last {
            Some(r) => "  "@ + r,
            None => "  (nothing recorded yet)"@,
        },
    )
}

/// Tells what each bound monitor shows, given the reading of each in order.
/// The code is 1 where a configured monitor could not be bound.
pub fn status(bindings: &BindingSet, readings: &Vec<InputReading>, last: &LastRequest) -> (r: Told)
    requires
        readings@.len() == bindings.bound@.len(),
    ensures
        r.page@ == status_lines(
            bindings.deep_view(),
            readings.deep_view(),
            last.deep_view().request,
        ),
        r.code == if bindings.deep_view().problems.len() == 0 {
            0i32
        } else {
            1
        },
{
    let ghost set = bindings.deep_view();
    let ghost rs = readings.deep_view();
    let ghost want = observed_lines(set.bound, rs);
    let mut page = Page::new();
    page.heading("Observed now");
    let ghost p0 = page@;
    let mut i: usize = 0;
    assert(page@ =~= p0 + want.take(0));
    while i < bindings.bound.len()
        invariant
            i <= bindings.bound@.len(),
            readings@.len() == bindings.bound@.len(),
            set == bindings.deep_view(),
            rs == readings.deep_view(),
            want == observed_lines(set.bound, rs),
            page@ == p0 + want.take(i as int),
        decreases bindings.bound@.len() - i,
    {
        let b: &Binding = &bindings.bound[i];
        let reading = &readings[i];
        assert(set.bound[i as int] == b.deep_view());
        assert(rs[i as int] == reading.deep_view());
        let beside = match reading.value() {
            None => String::new(),
            Some(c) => match b.monitor.input(c) {
                None => String::new(),
                Some(input) => cat3("  (", input.display_name().as_str(), ")"),
            },
        };
        assert(beside@ =~= name_beside(b.deep_view().monitor, reading.deep_view())) by {
            reveal_strlit("");
        }
        page.say(
            cat5(
                "  ",
                pad(b.monitor.label.as_str(), 26).as_str(),
                " ",
                reading.to_string().as_str(),
                beside.as_str(),
            ),
        );
        assert(page@ =~= p0 + want.take(i as int + 1));
        i += 1;
    }
    assert(want.take(want.len() as int) =~= want);
    let ghost p1 = page@;
    let ghost ps = problem_messages(set.problems);
    let mut i: usize = 0;
    assert(page@ =~= p1 + ps.take(0));
    while i < bindings.problems.len()
        invariant
            i <= bindings.problems@.len(),
            set == bindings.deep_view(),
            ps == problem_messages(set.problems),
            page@ == p1 + ps.take(i as int),
        decreases bindings.problems@.len() - i,
    {
        assert(set.problems[i as int] == bindings.problems@[i as int].deep_view());
        page.say(cat2("  ", bindings.problems[i].to_string().as_str()));
        assert(page@ =~= p1 + ps.take(i as int + 1));
        i += 1;
    }
    assert(ps.take(ps.len() as int) =~= ps);
    page.heading("Last requested by this tool");
    page.put("  This is intent, not proof. Inputs can also be changed with the monitor");
    page.put("  buttons, or by any other computer attached to them.\n");
    match &last.request {
        Some(r) => {
            page.say(cat2("  ", r.as_str()));
        },
        None => {
            page.put("  (nothing recorded yet)");
        },
    }
    assert(page@ =~= status_lines(set, rs, last.deep_view().request));
    let code: i32 = if bindings.problems.len() == 0 {
        0
    } else {
        1
    };
    Told { page, code }
}

// ---------------------------------------------------------------------------
// actions
// ---------------------------------------------------------------------------

pub open spec fn step_texts(action: ActionView) -> Seq<Seq<char>> {
    action.steps.map_values(|s: crate::actions::ActionStepView| s.summary())
}

pub open spec fn action_lines(action: ActionView) -> Seq<LineView> {
    said(""@) + said(
        action.name + match action.hotkey {
            Some(h) => "   ["@ + h + "]"@,
            None => "   (no hotkey)"@,
        },
    ) + bullet_lines(step_texts(action)) + if action.needs_experimental() {
        more_line("needs --experimental to run"@)
    } else {
        nothing()
    }
}

pub open spec fn all_action_lines(actions: Seq<ActionView>) -> Seq<LineView>
    decreases actions.len(),
{
    if actions.len() == 0 {
        nothing()
    } else {
        all_action_lines(actions.drop_last()) + action_lines(actions.last())
    }
}

pub open spec fn actions_lines(actions: Seq<ActionView>, path: Seq<char>) -> Seq<LineView> {
    heading_lines("Actions"@) + if actions.len() == 0 {
        said("  None yet. Add them in the GUI, or by hand in"@) + said("  "@ + path)
    } else {
        all_action_lines(actions) + said(
            "\nRun one with: desktop-switcher run-action \"<name>\""@,
        )
    }
}

fn summaries(action: &Action) -> (r: Vec<String>)
    ensures
        texts(r@) == step_texts(action.deep_view()),
{
    let ghost want = step_texts(action.deep_view());
    let mut out: Vec<String> = Vec::new();
    let mut i: usize = 0;
    assert(texts(out@) =~= want.take(0));
    while i < action.steps.len()
        invariant
            i <= action.steps@.len(),
            want == step_texts(action.deep_view()),
            texts(out@) == want.take(i as int),
        decreases action.steps@.len() - i,
    {
        assert(action.deep_view().steps[i as int] == action.steps@[i as int].deep_view());
        let ghost had = texts(out@);
        out.push(action.steps[i].summary());
        assert(texts(out@) =~= had.push(want[i as int]));
        i += 1;
    }
    assert(want.take(want.len() as int) =~= want);
    out
}

fn tell_action(page: &mut Page, action: &Action)
    ensures
        final(page)@ == old(page)@ + action_lines(action.deep_view()),
{
    page.put("");
    match &action.hotkey {
        Some(h) => {
            let key = cat3("   [", h.as_str(), "]");
            page.say(cat2(action.name.as_str(), key.as_str()));
        },
        None => {
            page.say(cat2(action.name.as_str(), "   (no hotkey)"));
        },
    }
    let steps = summaries(action);
    page.bullets(&steps);
    if action.needs_experimental() {
        page.field_cont("needs --experimental to run");
    }
    assert(page@ =~= old(page)@ + action_lines(action.deep_view()));
}

/// Lists the actions with their steps and hotkeys.
pub fn actions(config: &Config, path: &str) -> (r: Told)
    ensures
        r.page@ == actions_lines(config.deep_view().actions, path@),
        r.code == 0,
{
    let ghost all = config.deep_view().actions;
    let mut page = Page::new();
    page.heading("Actions");
    if config.actions.len() == 0 {
        page.put("  None yet. Add them in the GUI, or by hand in");
        page.say(cat2("  ", path));
        assert(page@ =~= actions_lines(all, path@));
        return Told { page, code: 0 };
    }
    let ghost head = page@;
    let mut i: usize = 0;
    assert(all.take(0) =~= Seq::<ActionView>::empty());
    assert(page@ =~= head + all_action_lines(all.take(0)));
    while i < config.actions.len()
        invariant
            i <= config.actions@.len(),
            all == config.deep_view().actions,
            page@ == head + all_action_lines(all.take(i as int)),
        decreases config.actions@.len() - i,
    {
        let ghost next = all.take(i as int + 1);
        assert(next.drop_last() =~= all.take(i as int));
        assert(next.last() == config.actions@[i as int].deep_view());
        tell_action(&mut page, &config.actions[i]);
        assert(page@ =~= head + all_action_lines(next));
        i += 1;
    }
    assert(all.take(all.len() as int) =~= all);
    page.put("\nRun one with: desktop-switcher run-action \"<name>\"");
    assert(page@ =~= actions_lines(all, path@));
    Told { page, code: 0 }
}

// ---------------------------------------------------------------------------
// run-action
// ---------------------------------------------------------------------------

pub open spec fn action_names(actions: Seq<ActionView>) -> Seq<Seq<char>> {
    actions.map_values(|a: ActionView| a.name)
}

pub open spec fn unknown_action_text(name: Seq<char>, actions: Seq<ActionView>) -> Seq<char> {
    "no action called `"@ + name + "`. Configured: "@ + if actions.len() == 0 {
        "none"@
    } else {
        joined(action_names(actions), ", "@)
    }
}

pub open spec fn unreliable_action_text(name: Seq<char>) -> Seq<char> {
    "`"@ + name
        + "` includes a display-topology step, which is not reliable yet. Pass --experimental to run it anyway."@
}

/// How an action begins: with its steps, or not at all because it ran a moment
/// ago.
#[derive(Debug, PartialEq, Eq)]
pub enum ActionStart {
    Repeat(Told),
    Go(Action),
}

pub enum ActionStartView {
    Repeat(Seq<char>),
    Go(ActionView),
}

/// How the action of a name begins, or why it cannot. It is ignored as a whole
/// when it repeats itself, so a held hotkey cannot replay it.
pub open spec fn action_start(
    config: Option<ConfigView>,
    path: Seq<char>,
    name: Seq<char>,
    experimental: bool,
    last: LastRequestView,
    now: int,
) -> Result<ActionStartView, Seq<char>> {
    match config {
        None => Err(no_config_text(path)),
        Some(config) => match config.action(name) {
            None => Err(unknown_action_text(name, config.actions)),
            Some(action) => match action.problem() {
                Some(problem) => Err(problem),
                None => if action.needs_experimental() && !experimental {
                    Err(unreliable_action_text(action.name))
                } else if last.repeated_at(action.name, now, config.dedupe_ms as int) {
                    Ok(ActionStartView::Repeat(action.name))
                } else {
                    Ok(ActionStartView::Go(action))
                },
            },
        },
    }
}

pub open spec fn action_repeat_lines(name: Seq<char>) -> Seq<LineView> {
    said("`"@ + name + "` ran a moment ago; ignoring the repeat."@)
}

pub open spec fn starts_as(r: Result<ActionStart, String>, want: Result<ActionStartView, Seq<char>>) -> bool {
    match (r, want) {
        (Ok(ActionStart::Repeat(t)), Ok(ActionStartView::Repeat(name))) => t.page@
            == action_repeat_lines(name) && t.code == 0,
        (Ok(ActionStart::Go(a)), Ok(ActionStartView::Go(v))) => a.deep_view() == v,
        (Err(e), Err(w)) => e@ == w,
        _ => false,
    }
}

fn names_of(actions: &Vec<Action>) -> (r: Vec<String>)
    ensures
        texts(r@) == action_names(actions.deep_view()),
{
    let ghost want = action_names(actions.deep_view());
    let mut out: Vec<String> = Vec::new();
    let mut i: usize = 0;
    assert(texts(out@) =~= want.take(0));
    while i < actions.len()
        invariant
            i <= actions@.len(),
            want == action_names(actions.deep_view()),
            texts(out@) == want.take(i as int),
        decreases actions@.len() - i,
    {
        assert(actions.deep_view()[i as int] == actions@[i as int].deep_view());
        let ghost had = texts(out@);
        out.push(actions[i].name.clone());
        assert(texts(out@) =~= had.push(want[i as int]));
        i += 1;
    }
    assert(want.take(want.len() as int) =~= want);
    out
}

/// Begins an action, asked for at `now_ms`.
pub fn begin_action(
    config: Option<&Config>,
    path: &str,
    name: &str,
    experimental: bool,
    last: &LastRequest,
    now_ms: u64,
) -> (r: Result<ActionStart, String>)
    ensures
        starts_as(
            r,
            action_start(
                opt_config(config),
                path@,
                name@,
                experimental,
                last.deep_view(),
                now_ms as int,
            ),
        ),
{
    let config = match require_config(config, path) {
        Ok(c) => c,
        Err(e) => {
            return Err(e);
        },
    };
    let action = match config.action(name) {
        Some(a) => a,
        None => {
            let list = if config.actions.len() == 0 {
                "none".to_owned()
            } else {
                join(names_of(&config.actions).as_slice(), ", ")
            };
            return Err(cat4("no action called `", name, "`. Configured: ", list.as_str()));
        },
    };
    if let Err(e) = action.validate() {
        return Err(e);
    }
    if action.needs_experimental() && !experimental {
        return Err(
            cat3(
                "`",
                action.name.as_str(),
                "` includes a display-topology step, which is not reliable yet. Pass --experimental to run it anyway.",
            ),
        );
    }
    if last.is_duplicate_at(action.name.as_str(), now_ms, config.dedupe_ms) {
        let mut page = Page::new();
        page.say(cat3("`", action.name.as_str(), "` ran a moment ago; ignoring the repeat."));
        assert(page@ =~= action_repeat_lines(action.name@));
        return Ok(ActionStart::Repeat(Told { page, code: 0 }));
    }
    Ok(ActionStart::Go(action.clone()))
}

/// Opens an action: logs that it begins, and heads its report.
pub fn open_action(action: &Action, log: &mut EventLog) -> (r: Page)
    ensures
        r@ == heading_lines(action.name@),
        took(
            *old(log),
            *final(log),
            "action.begin"@,
            seq![("name"@, action.name@), ("steps"@, decimal(action.steps@.len()))],
        ),
{
    let fields: [(&str, String); 2] = [
        ("name", action.name.clone()),
        ("steps", dec(action.steps.len() as u64)),
    ];
    assert(fields_view(fields@) =~= seq![
        ("name"@, action.name@),
        ("steps"@, decimal(action.steps@.len())),
    ]);
    log.append("action.begin", fields.as_slice());
    let mut page = Page::new();
    page.heading(action.name.as_str());
    assert(page@ =~= heading_lines(action.name@));
    page
}

/// What an action does next.
#[derive(Debug, PartialEq, Eq)]
pub enum Next {
    /// Run the step at this place.
    Step { index: usize, page: Page },
    /// It is over.
    Over(Told),
}

pub enum NextView {
    Step(int),
    Over(i32),
}

/// What comes after `done` steps of `count`, the last of which ended with
/// `code`: the next step, unless one failed or none is left. Later steps
/// generally assume the earlier ones happened, so carrying on after a failure
/// would produce a state nobody asked for.
pub open spec fn next_of(count: int, done: int, code: i32) -> NextView {
    if done > 0 && code != 0 {
        NextView::Over(code)
    } else if done < count {
        NextView::Step(done)
    } else {
        NextView::Over(0)
    }
}

pub open spec fn next_lines(action: ActionView, done: int, code: i32) -> Seq<LineView> {
    let count = action.steps.len();
    match next_of(count as int, done, code) {
        NextView::Step(i) => said(
            "\n["@ + decimal((i + 1) as nat) + "/"@ + decimal(count) + "] "@
                + action.steps[i].summary(),
        ),
        NextView::Over(c) => if c != 0 {
            told(
                "\nStopped: step "@ + decimal(done as nat) + " of "@ + decimal(count)
                    + " failed, so the rest were not run."@,
            )
        } else {
            said("\nDone."@)
        },
    }
}

/// What is logged when an action goes on, stops or ends.
pub open spec fn next_event(action: ActionView, done: int, code: i32) -> Option<
    (Seq<char>, Seq<(Seq<char>, Seq<char>)>),
> {
    match next_of(action.steps.len() as int, done, code) {
        NextView::Step(_) => None,
        NextView::Over(c) => if c != 0 {
            Some(
                (
                    "action.stop"@,
                    seq![("name"@, action.name), ("step"@, action.steps[done - 1].summary())],
                ),
            )
        } else {
            Some(("action.end"@, seq![("name"@, action.name)]))
        },
    }
}

/// Decides what an action does once `done` of its steps have been run, the
/// last of which ended with `code`.
pub fn proceed(action: &Action, done: usize, code: i32, log: &mut EventLog) -> (r: Next)
    requires
        done <= action.steps@.len(),
    ensures
        match (r, next_of(action.steps@.len() as int, done as int, code)) {
            (Next::Step { index, page }, NextView::Step(i)) => index == i && index
                < action.steps@.len() && page@ == next_lines(
                action.deep_view(),
                done as int,
                code,
            ),
            (Next::Over(t), NextView::Over(c)) => t.code == c && t.page@ == next_lines(
                action.deep_view(),
                done as int,
                code,
            ),
            _ => false,
        },
        logged(*old(log), *final(log), next_event(action.deep_view(), done as int, code)),
{
    let ghost a = action.deep_view();
    let count: usize = action.steps.len();
    let mut page = Page::new();
    if done > 0 && code != 0 {
        let step = action.steps[done - 1].summary();
        assert(a.steps[done - 1] == action.steps@[done - 1].deep_view());
        let fields: [(&str, String); 2] = [("name", action.name.clone()), ("step", step)];
        assert(fields_view(fields@) =~= seq![
            ("name"@, a.name),
            ("step"@, a.steps[done - 1].summary()),
        ]);
        log.append("action.stop", fields.as_slice());
        page.tell(
            cat5(
                "\nStopped: step ",
                dec(done as u64).as_str(),
                " of ",
                dec(count as u64).as_str(),
                " failed, so the rest were not run.",
            ),
        );
        assert(page@ =~= next_lines(a, done as int, code));
        return Next::Over(Told { page, code });
    }
    if done < count {
        assert(a.steps[done as int] == action.steps@[done as int].deep_view());
        page.say(
            cat6(
                "\n[",
                dec(done as u64 + 1).as_str(),
                "/",
                dec(count as u64).as_str(),
                "] ",
                action.steps[done].summary().as_str(),
            ),
        );
        assert(page@ =~= next_lines(a, done as int, code));
        return Next::Step { index: done, page };
    }
    let fields: [(&str, String); 1] = [("name", action.name.clone())];
    assert(fields_view(fields@) =~= seq![("name"@, a.name)]);
    log.append("action.end", fields.as_slice());
    page.put("\nDone.");
    assert(page@ =~= next_lines(a, done as int, code));
    Next::Over(Told { page, code: 0 })
}

/// The steps an action of `count` steps runs when step `i` ends with
/// `codes[i]`, from step `done` on.
pub open spec fn steps_run(count: int, codes: spec_fn(int) -> i32, done: int, code: i32) -> Seq<int>
    decreases count - done,
{
    match next_of(count, done, code) {
        NextView::Step(i) => if 0 <= done < count {
            seq![i] + steps_run(count, codes, done + 1, codes(i))
        } else {
            Seq::empty()
        },
        NextView::Over(_) => Seq::empty(),
    }
}

/// Steps run in order, each only when every one before it succeeded.
pub proof fn law_an_action_stops_at_the_first_failure(
    count: int,
    codes: spec_fn(int) -> i32,
    done: int,
    code: i32,
    k: int,
)
    requires
        0 <= done <= count,
        0 <= k < steps_run(count, codes, done, code).len(),
    ensures
        steps_run(count, codes, done, code)[k] == done + k,
        done + k < count,
        done > 0 ==> code == 0,
        forall|i: int| done <= i < done + k ==> #[trigger] codes(i) == 0,
    decreases count - done,
{
    if k > 0 {
        law_an_action_stops_at_the_first_failure(count, codes, done + 1, codes(done), k - 1);
    }
}

/// Where no step fails, every step runs, each once and in order.
pub proof fn law_an_action_runs_every_step(count: int, codes: spec_fn(int) -> i32)
    requires
        0 <= count,
        forall|i: int| 0 <= i < count ==> #[trigger] codes(i) == 0,
    ensures
        steps_run(count, codes, 0, 0).len() == count,
        forall|k: int| 0 <= k < count ==> #[trigger] steps_run(count, codes, 0, 0)[k] == k,
{
    lemma_steps_to_go(count, codes, 0, 0, count);
}

/// Where a step is the first to fail, the steps up to it run, it among them,
/// and none after it.
pub proof fn law_an_action_runs_up_to_the_first_failure(
    count: int,
    codes: spec_fn(int) -> i32,
    f: int,
)
    requires
        0 <= f < count,
        codes(f) != 0,
        forall|i: int| 0 <= i < f ==> #[trigger] codes(i) == 0,
    ensures
        steps_run(count, codes, 0, 0).len() == f + 1,
        forall|k: int| 0 <= k <= f ==> #[trigger] steps_run(count, codes, 0, 0)[k] == k,
{
    lemma_steps_to_go(count, codes, 0, 0, f);
}

/// From step `done` on, the steps up to the first that fails run, or all of
/// them where `f` is their number.
proof fn lemma_steps_to_go(count: int, codes: spec_fn(int) -> i32, done: int, code: i32, f: int)
    requires
        0 <= done <= f <= count,
        code == 0,
        f < count ==> codes(f) != 0,
        forall|i: int| done <= i < f ==> #[trigger] codes(i) == 0,
    ensures
        steps_run(count, codes, done, code).len() == if f < count {
            f + 1 - done
        } else {
            count - done
        },
        forall|k: int|
            0 <= k < steps_run(count, codes, done, code).len() ==> #[trigger] steps_run(
                count,
                codes,
                done,
                code,
            )[k] == done + k,
    decreases count - done,
{
    if done < count {
        if done < f {
            lemma_steps_to_go(count, codes, done + 1, codes(done), f);
        } else {
            assert(steps_run(count, codes, done + 1, codes(done)) =~= Seq::<int>::empty());
        }
    }
}

/// An action goes on while steps are left and none failed. It is over well only
/// after its last step, and over with the code of the step that failed.
pub proof fn law_an_action_is_over_when_its_steps_are(count: int, done: int, code: i32)
    requires
        0 <= done <= count,
    ensures
        match next_of(count, done, code) {
            NextView::Step(i) => i == done && done < count && (done > 0 ==> code == 0),
            NextView::Over(c) => if c == 0 {
                done == count
            } else {
                done > 0 && c == code
            },
        },
{
}

/// A set goes ahead with the code that was typed, unless the same request was
/// made a moment ago; a dry run and force pass that over, and the lock with it.
/// What is no code is refused.
pub proof fn law_a_set_begins_with_the_code_that_was_typed(
    config: ConfigView,
    path: Seq<char>,
    monitor: Seq<char>,
    code: Seq<char>,
    dry_run: bool,
    force: bool,
    last: LastRequestView,
    now: int,
)
    ensures
        set_start(None, path, monitor, code, dry_run, force, last, now) is Err,
        match (
            code_in(code),
            set_start(Some(config), path, monitor, code, dry_run, force, last, now),
        ) {
            (Err(e), Err(why)) => why == e.message(),
            (Ok(c), Ok(SetStartView::Go { code: goes, request, guarded })) => {
                &&& goes == c
                &&& request == request_text(monitor, c)
                &&& guarded <==> !dry_run && !force
                &&& guarded ==> !last.repeated_at(request, now, config.dedupe_ms as int)
            },
            (Ok(c), Ok(SetStartView::Repeat)) => !dry_run && !force && last.repeated_at(
                request_text(monitor, c),
                now,
                config.dedupe_ms as int,
            ),
            _ => false,
        },
{
}

/// Requests are told apart: two that read alike are for the same monitor and
/// the same code.
pub proof fn law_requests_are_told_apart(
    a: Seq<char>,
    x: InputCode,
    b: Seq<char>,
    y: InputCode,
)
    requires
        request_text(a, x) == request_text(b, y),
    ensures
        a == b,
        x == y,
{
    reveal_strlit("set ");
    reveal_strlit(" ");
    law_a_code_is_written_for_its_worth(x, y);
    law_a_code_is_written_for_its_worth(y, x);
    let s = request_text(a, x);
    let n = s.len() as int;
    assert(s.subrange(n - 4, n) =~= code_text(x));
    assert(s.subrange(n - 4, n) =~= code_text(y));
    assert(s.subrange(4, n - 5) =~= a);
    assert(s.subrange(4, n - 5) =~= b);
}

/// A set is read back after the pause that is configured, and goes out whatever
/// the monitor reports.
pub proof fn law_a_set_is_read_back_and_never_skipped(config: ConfigView, dry_run: bool)
    ensures
        ({
            let o = set_options(config, dry_run);
            o.read_back && !o.skip_reported && o.dry_run == dry_run && o.settle_ms
                == config.settle_ms
        }),
{
}

/// The line on a monitor names it, the code that was asked for, and what became
/// of it; of a dry run it says nothing became of it.
pub proof fn law_a_line_says_what_became_of_the_set(step: StepReportView, dry_run: bool)
    ensures
        step_lines(step, dry_run).len() > 0,
        step_lines(step, dry_run)[0] matches LineView::Out(text) && has_text(text, step.label)
            && has_text(text, code_text(step.requested)) && (!dry_run ==> has_text(
            text,
            step.outcome.text(),
        )),
{
    let end = if dry_run {
        "would be set (dry run)"@
    } else {
        step.outcome.text()
    };
    let name = padded(step.label, 26);
    let text = "  "@ + name + " "@ + code_text(step.requested) + " -> "@ + end;
    assert(step_lines(step, dry_run)[0] == LineView::Out(text));
    lemma_has_text_between("  "@ + name + " "@ + code_text(step.requested) + " -> "@, end, Seq::empty());
    let head = "  "@ + name + " "@;
    lemma_has_text_between(head, code_text(step.requested), " -> "@ + end);
    assert(head + code_text(step.requested) + (" -> "@ + end) =~= text);
    let filled = if step.label.len() < 26 {
        repeated(' ', (26 - step.label.len()) as nat)
    } else {
        Seq::empty()
    };
    assert(name =~= step.label + filled);
    let rest = filled + (" "@ + code_text(step.requested) + " -> "@ + end);
    lemma_has_text_between("  "@, step.label, rest);
    assert("  "@ + step.label + rest =~= text);
}

/// Help is offered exactly where a set failed.
pub proof fn law_help_is_offered_where_a_set_failed(steps: Seq<StepReportView>)
    ensures
        report_lines(steps, false) == steps_lines(steps, false) + said(
            "\n  "@ + status_text(status_of(steps)),
        ) + if exists|i: int| 0 <= i < steps.len() && (#[trigger] steps[i]).outcome is Failed {
            recovery_lines()
        } else {
            nothing()
        },
{
    let any = exists|i: int| 0 <= i < steps.len() && (#[trigger] steps[i]).outcome is Failed;
    if steps.len() > 0 {
        law_an_exit_code_counts_failures(steps, 0, 0);
        if any {
            let i = choose|i: int| 0 <= i < steps.len() && (#[trigger] steps[i]).outcome is Failed;
            law_an_exit_code_counts_failures(steps, i, i);
        } else {
            assert forall|k: int| 0 <= k < steps.len() implies (
            #[trigger] steps[k]).outcome !is Failed by {}
        }
    } else {
        law_exit_codes_tell_failures(steps);
    }
    assert(report_lines(steps, false) =~= steps_lines(steps, false) + said(
        "\n  "@ + status_text(status_of(steps)),
    ) + if any {
        recovery_lines()
    } else {
        nothing()
    });
}

/// What is learned of a set is a note on the very input that was set, of the
/// monitor that was named, and only where that monitor fell silent; nothing else
/// of the configuration changes.
pub proof fn law_a_note_goes_to_the_input_that_was_set(
    config: ConfigView,
    monitor: Seq<char>,
    code: InputCode,
    step: StepReportView,
    day: Seq<char>,
)
    ensures
        learned(config, monitor, code, step, day) matches Some(next) ==> {
            &&& step.after matches Some(InputReadingView::UnavailableAfterSwitch { .. })
            &&& exists|at: int, k: int|
                #![trigger config.monitors[at].inputs[k]]
                {
                    &&& 0 <= at < config.monitors.len()
                    &&& is_asked_for(config.monitors[at], monitor)
                    &&& 0 <= k < config.monitors[at].inputs.len()
                    &&& config.monitors[at].inputs[k].input_code == code
                    &&& next.monitors[at].inputs[k].note == Some(silence_note(day))
                    &&& next.monitors.len() == config.monitors.len()
                    &&& forall|i: int|
                        0 <= i < config.monitors.len() && i != at ==> #[trigger] next.monitors[i]
                            == config.monitors[i]
                    &&& next.monitors[at].key == config.monitors[at].key
                    &&& next.monitors[at].backend_id == config.monitors[at].backend_id
                    &&& next.monitors[at].serial == config.monitors[at].serial
                    &&& next.monitors[at].inputs.len() == config.monitors[at].inputs.len()
                    &&& forall|j: int|
                        0 <= j < config.monitors[at].inputs.len() && j != k
                            ==> #[trigger] next.monitors[at].inputs[j]
                            == config.monitors[at].inputs[j]
                }
        },
{
    if learned(config, monitor, code, step, day) is Some {
        let ms = config.monitors;
        lemma_first_index(ms, named(monitor));
        let at = first_index(ms, named(monitor))->0;
        law_a_monitor_answers_to_its_full_names(ms[at], monitor);
        lemma_first_index(ms[at].inputs, has_code(code));
        let k = first_index(ms[at].inputs, has_code(code))->0;
        let next = learned(config, monitor, code, step, day)->0;
        assert(config.monitors[at].inputs[k].input_code == code);
        assert(next.monitors[at].inputs[k].note == Some(silence_note(day)));
    }
}

/// Every bound monitor is shown with what it reports, and every problem with
/// what it is: a line for each.
pub proof fn law_every_monitor_is_shown_with_what_it_reports(
    set: BindingSetView,
    readings: Seq<InputReadingView>,
    i: int,
)
    requires
        readings.len() == set.bound.len(),
    ensures
        observed_lines(set.bound, readings).len() == set.bound.len(),
        problem_messages(set.problems).len() == set.problems.len(),
        0 <= i < set.bound.len() ==> (observed_lines(set.bound, readings)[i] matches LineView::Out(
            text,
        ) && has_text(text, set.bound[i].monitor.label) && has_text(text, readings[i].text())),
        0 <= i < set.problems.len() ==> (problem_messages(set.problems)[i] matches LineView::Out(
            text,
        ) && has_text(text, set.problems[i].message())),
{
    if 0 <= i < set.bound.len() {
        let m = set.bound[i].monitor;
        let name = padded(m.label, 26);
        let beside = name_beside(m, readings[i]);
        let text = observed_text(set.bound[i], readings[i]);
        lemma_has_text_between("  "@ + name + " "@, readings[i].text(), beside);
        let filled = if m.label.len() < 26 {
            repeated(' ', (26 - m.label.len()) as nat)
        } else {
            Seq::empty()
        };
        assert(name =~= m.label + filled);
        let rest = filled + (" "@ + readings[i].text() + beside);
        lemma_has_text_between("  "@, m.label, rest);
        assert("  "@ + m.label + rest =~= text);
        assert(observed_lines(set.bound, readings)[i] == LineView::Out(text));
    }
    if 0 <= i < set.problems.len() {
        lemma_has_text_between("  "@, set.problems[i].message(), Seq::empty());
    }
}

/// An action goes ahead where it is the one that was named, may be run, and was
/// not run a moment ago; a step that is not reliable needs to be asked for.
pub proof fn law_an_action_begins_when_it_may(
    config: ConfigView,
    path: Seq<char>,
    name: Seq<char>,
    experimental: bool,
    last: LastRequestView,
    now: int,
)
    ensures
        action_start(None, path, name, experimental, last, now) is Err,
        match action_start(Some(config), path, name, experimental, last, now) {
            Ok(ActionStartView::Go(a)) => {
                &&& config.action(name) == Some(a)
                &&& is_typed(a.name, name)
                &&& a.steps.len() > 0
                &&& !experimental ==> forall|i: int|
                    0 <= i < a.steps.len() ==> !(#[trigger] a.steps[i] is Release || a.steps[i]
                        is Claim || a.steps[i] is Primary)
                &&& !last.repeated_at(a.name, now, config.dedupe_ms as int)
            },
            Ok(ActionStartView::Repeat(told)) => config.action(name) matches Some(a) && told
                == a.name && last.repeated_at(a.name, now, config.dedupe_ms as int),
            Err(_) => match config.action(name) {
                None => true,
                Some(a) => a.problem() is Some || (!experimental && exists|i: int|
                    0 <= i < a.steps.len() && (#[trigger] a.steps[i] is Release || a.steps[i]
                        is Claim || a.steps[i] is Primary)),
            },
        },
{
    law_an_action_answers_to_its_full_name(config, name);
    if let Some(a) = config.action(name) {
        law_an_action_is_valid_when_it_is_whole(a);
        if !a.needs_experimental() {
            assert forall|i: int| 0 <= i < a.steps.len() implies !(#[trigger] a.steps[i] is Release
                || a.steps[i] is Claim || a.steps[i] is Primary) by {
                assert(!a.steps[i].is_experimental());
            }
        } else {
            let i = choose|i: int|
                0 <= i < a.steps.len() && #[trigger] a.steps[i].is_experimental();
            assert(a.steps[i] is Release || a.steps[i] is Claim || a.steps[i] is Primary);
        }
    }
}

/// A step is announced by what it does and logged when it fails; the end of an
/// action is logged under its name.
pub proof fn law_a_step_is_announced_by_what_it_does(action: ActionView, done: int, code: i32)
    requires
        0 <= done <= action.steps.len(),
    ensures
        done < action.steps.len() && (done > 0 ==> code == 0) ==> (next_lines(
            action,
            done,
            code,
        )[0] matches LineView::Out(text) && has_text(text, action.steps[done].summary()))
            && next_event(action, done, code) is None,
        done > 0 && code != 0 ==> next_event(action, done, code) == Some(
            (
                "action.stop"@,
                seq![("name"@, action.name), ("step"@, action.steps[done - 1].summary())],
            ),
        ),
        done == action.steps.len() && (done > 0 ==> code == 0) ==> next_event(action, done, code)
            == Some(("action.end"@, seq![("name"@, action.name)])),
{
    if done < action.steps.len() && (done > 0 ==> code == 0) {
        let head = "\n["@ + decimal((done + 1) as nat) + "/"@ + decimal(action.steps.len()) + "] "@;
        lemma_has_text_between(head, action.steps[done].summary(), Seq::empty());
    }
}

/// Every action is listed under its name, with its hotkey where it has one and
/// a line for each of its steps.
pub proof fn law_every_action_is_listed(actions: Seq<ActionView>, path: Seq<char>, i: int)
    requires
        0 <= i < actions.len(),
    ensures
        exists|k: int|
            0 <= k < actions_lines(actions, path).len() && (#[trigger] actions_lines(
                actions,
                path,
            )[k] matches LineView::Out(line) && actions[i].name.is_prefix_of(line) && (
            actions[i].hotkey matches Some(h) ==> has_text(line, h))),
{
    let all = all_action_lines(actions);
    let k = lemma_action_listed(actions, i);
    let lines = actions_lines(actions, path);
    assert(lines[2 + k] == all[k]);
}

proof fn lemma_action_listed(actions: Seq<ActionView>, i: int) -> (k: int)
    requires
        0 <= i < actions.len(),
    ensures
        0 <= k < all_action_lines(actions).len(),
        all_action_lines(actions)[k] matches LineView::Out(line) && actions[i].name.is_prefix_of(
            line,
        ) && (actions[i].hotkey matches Some(h) ==> has_text(line, h)),
    decreases actions.len(),
{
    let front = actions.drop_last();
    let before = all_action_lines(front);
    let all = all_action_lines(actions);
    if i < front.len() {
        assert(front[i] == actions[i]);
        let k = lemma_action_listed(front, i);
        assert(all[k] == before[k]);
        k
    } else {
        let a = actions.last();
        let own = action_lines(a);
        let k = before.len() + 1;
        assert(all[k as int] == own[1]);
        let line = a.name + match a.hotkey {
            Some(h) => "   ["@ + h + "]"@,
            None => "   (no hotkey)"@,
        };
        assert(own[1] == LineView::Out(line));
        assert(line.subrange(0, a.name.len() as int) =~= a.name);
        if a.hotkey is Some {
            let h = a.hotkey->0;
            lemma_has_text_between(a.name + "   ["@, h, "]"@);
            assert(a.name + "   ["@ + h + "]"@ =~= line);
        }
        k as int
    }
}

} // verus!

//! Setting up: recording which monitors exist and what inputs they offer, and
//! choosing what to work with when a command starts.

use vstd::prelude::*;

use crate::actions::{says_something, Action, ActionStepView, ActionView};
use crate::config::{
    copy_actions, copy_inputs, law_a_monitor_answers_to_its_full_names, BackendKind, Config, ConfigView, MonitorConfig, MonitorConfigView,
    MonitorInput, MonitorInputView, DEFAULT_TIMEOUT_SECONDS,
};
use crate::inventory::{
    duplicate_serials, law_repeated_serials_are_those_of_two_displays,
    law_the_only_display_that_may_be_it_is_bound, repeated_serials, resolution,
};
use crate::listing::opt_config;
use crate::lookup::{
    is_switchable, monitor_views, opt_capabilities, opt_monitor, switchable_monitors,
};
use crate::page::{heading_lines, nothing, said, LineView, Page};
use crate::seqs::{lemma_filter_members, lemma_filter_take, lemma_filter_take_none};
use crate::switch::opt_reading;
use crate::text::{
    cat2, cat3, cat4, copy_opt, is_blank, is_typed, join, joined,
    law_a_blank_text_is_all_white_space, opt_text, texts, trim_str, trimmed,
};
use crate::types::{
    code_text, opt_str, DetectedMonitor, DetectedMonitorView, Evidence, InputCapabilities,
    InputCapabilitiesView, InputReading, InputReadingView, InputSourceOption,
    InputSourceOptionView, MonitorIdentity, MonitorIdentityView,
};

verus! {

// ---------------------------------------------------------------------------
// Starting up
// ---------------------------------------------------------------------------

/// Which backend to use: the one asked for, else the configured one, else the
/// platform's own.
pub fn chosen_backend(
    asked: Option<BackendKind>,
    config: Option<&Config>,
    usual: BackendKind,
) -> (r: BackendKind)
    ensures
        r == match asked {
            Some(kind) => kind,
            None => match opt_config(config) {
                Some(c) => c.backend,
                None => usual,
            },
        },
{
    match asked {
        Some(kind) => kind,
        None => match config {
            Some(c) => c.backend,
            None => usual,
        },
    }
}

/// How long a tool may take, in seconds.
pub fn chosen_timeout(config: Option<&Config>) -> (r: u64)
    ensures
        r == match opt_config(config) {
            Some(c) => c.timeout_seconds,
            None => DEFAULT_TIMEOUT_SECONDS,
        },
{
    match config {
        Some(c) => c.timeout_seconds,
        None => DEFAULT_TIMEOUT_SECONDS,
    }
}

/// Where the backend's tool is: where it was said to be, else where the
/// configuration says.
pub fn chosen_tool(asked: Option<String>, config: Option<&Config>) -> (r: Option<String>)
    ensures
        opt_text(r) == match opt_text(asked) {
            Some(path) => Some(path),
            None => match opt_config(config) {
                Some(c) => c.tool_path,
                None => None,
            },
        },
{
    match asked {
        Some(path) => Some(path),
        None => match config {
            Some(c) => copy_opt(&c.tool_path),
            None => None,
        },
    }
}

/// This machine's name: what the environment says, else what the system's file
/// says, unless that is blank.
pub open spec fn host_name(from_env: Option<Seq<char>>, from_file: Option<Seq<char>>) -> Seq<char> {
    let told = match from_env {
        Some(name) => Some(name),
        None => from_file,
    };
    match told {
        Some(name) => if trimmed(name).len() > 0 {
            trimmed(name)
        } else {
            "this-computer"@
        },
        None => "this-computer"@,
    }
}

/// This machine's name, used only for display. Never asked for: it is not
/// something anyone should have to invent.
pub fn system_hostname(from_env: Option<String>, from_file: Option<String>) -> (r: String)
    ensures
        r@ == host_name(opt_text(from_env), opt_text(from_file)),
{
    let said = match from_env {
        Some(name) => Some(name),
        None => from_file,
    };
    match said {
        Some(name) => {
            if is_blank(name.as_str()) {
                "this-computer".to_owned()
            } else {
                trim_str(name.as_str())
            }
        },
        None => "this-computer".to_owned(),
    }
}

// ---------------------------------------------------------------------------
// Configuring
// ---------------------------------------------------------------------------

/// Why the displays that were found cannot be configured, if they cannot.
pub open spec fn setup_problem(detected: Seq<DetectedMonitorView>) -> Option<Seq<char>> {
    if detected.filter(is_switchable()).len() == 0 {
        Some(
            "No monitor on this computer can have its input switched. Run `doctor` first."@,
        )
    } else if repeated_serials(detected).len() > 0 {
        Some(
            "Serial(s) "@ + joined(repeated_serials(detected), ", "@)
                + " appear on more than one display. Those panels cannot be told apart, so binding them would address the wrong screen."@,
        )
    } else {
        None
    }
}

/// Whether the displays that were found can be configured.
pub fn configurable(detected: &[DetectedMonitor]) -> (r: Result<(), String>)
    ensures
        crate::actions::err_text(r) == setup_problem(detected.deep_view()),
{
    let switchable = switchable_monitors(detected);
    assert(monitor_views(switchable@).len() == switchable@.len());
    if switchable.len() == 0 {
        return Err(
            "No monitor on this computer can have its input switched. Run `doctor` first.".to_owned(),
        );
    }
    let duplicates = duplicate_serials(detected);
    assert(texts(duplicates@).len() == duplicates@.len());
    if duplicates.len() > 0 {
        return Err(
            cat3(
                "Serial(s) ",
                join(duplicates.as_slice(), ", ").as_str(),
                " appear on more than one display. Those panels cannot be told apart, so binding them would address the wrong screen.",
            ),
        );
    }
    Ok(())
}

/// What configuring opens with.
pub open spec fn opening_lines() -> Seq<LineView> {
    heading_lines("Configure"@) + said(
        "This records which monitors exist and what inputs they offer."@,
    ) + said("It writes nothing to a monitor."@) + said(
        "\nPress Enter to accept any suggestion in [brackets]."@,
    )
}

pub fn opening() -> (r: Page)
    ensures
        r@ == opening_lines(),
{
    let mut page = Page::new();
    page.heading("Configure");
    page.put("This records which monitors exist and what inputs they offer.");
    page.put("It writes nothing to a monitor.");
    page.put("\nPress Enter to accept any suggestion in [brackets].");
    assert(page@ =~= opening_lines());
    page
}

/// A configuration without monitors that keeps the settings and the actions of
/// the one before it.
pub open spec fn begun(
    host: Seq<char>,
    backend: BackendKind,
    existing: Option<ConfigView>,
) -> ConfigView {
    let fresh = ConfigView::new(host, backend);
    match existing {
        None => fresh,
        Some(prev) => ConfigView {
            timeout_seconds: prev.timeout_seconds,
            settle_ms: prev.settle_ms,
            dedupe_ms: prev.dedupe_ms,
            tool_path: prev.tool_path,
            actions: prev.actions,
            ..fresh
        },
    }
}

pub fn begin_config(host: &str, backend: BackendKind, existing: Option<&Config>) -> (r: Config)
    ensures
        r.deep_view() == begun(host@, backend, opt_config(existing)),
{
    let mut config = Config::new(host, backend);
    if let Some(prev) = existing {
        config.timeout_seconds = prev.timeout_seconds;
        config.settle_ms = prev.settle_ms;
        config.dedupe_ms = prev.dedupe_ms;
        config.tool_path = copy_opt(&prev.tool_path);
        config.actions = copy_actions(&prev.actions);
    }
    config
}

/// A display as it is put forward: what it is, where it is, and what it shows.
pub open spec fn candidate_lines(
    identity: MonitorIdentityView,
    reading: Option<InputReadingView>,
) -> Seq<LineView> {
    said("\n---"@) + said("  "@ + identity.description()) + said(
        "  connection: "@ + identity.backend_id,
    ) + if reading matches Some(r) && r is Value {
        said("  currently on: "@ + reading->0.text())
    } else {
        nothing()
    }
}

pub fn candidate_page(identity: &MonitorIdentity, reading: &Option<InputReading>) -> (r: Page)
    ensures
        r@ == candidate_lines(identity.deep_view(), opt_reading(*reading)),
{
    let mut page = Page::new();
    page.put("\n---");
    page.say(cat2("  ", identity.describe().as_str()));
    page.say(cat2("  connection: ", identity.backend_id.as_str()));
    if let Some(r) = reading {
        if let InputReading::Value(_) = r {
            page.say(cat2("  currently on: ", r.to_string().as_str()));
        }
    }
    assert(page@ =~= candidate_lines(identity.deep_view(), opt_reading(*reading)));
    page
}

/// The name suggested for a monitor: the one it has, else what it is.
pub fn suggested_name(previous: Option<&MonitorConfig>, identity: &MonitorIdentity) -> (r: String)
    ensures
        r@ == match opt_monitor(previous) {
            Some(m) => m.label,
            None => identity.deep_view().description(),
        },
{
    match previous {
        Some(m) => m.label.clone(),
        None => identity.describe(),
    }
}

/// An input the monitor claims, with what was known of it kept.
pub open spec fn merged_input(
    option: InputSourceOptionView,
    kept: Option<MonitorInputView>,
) -> MonitorInputView {
    match kept {
        None => MonitorInputView::reported(option.code, option.label),
        Some(k) => MonitorInputView {
            input_code: option.code,
            label: match k.label {
                Some(label) => Some(label),
                None => option.label,
            },
            verification: k.verification,
            note: k.note,
        },
    }
}

pub open spec fn kept_input(
    previous: Option<MonitorConfigView>,
    option: InputSourceOptionView,
) -> Option<MonitorInputView> {
    match previous {
        Some(p) => p.input(option.code),
        None => None,
    }
}

pub open spec fn merged_inputs(
    options: Seq<InputSourceOptionView>,
    previous: Option<MonitorConfigView>,
) -> Seq<MonitorInputView> {
    options.map_values(
        |o: InputSourceOptionView| merged_input(o, kept_input(previous, o)),
    )
}

/// Whether a monitor listed its inputs.
pub open spec fn listed(capabilities: Option<InputCapabilitiesView>) -> bool {
    capabilities matches Some(c) && c.options.len() > 0
}

/// The inputs to record: those the monitor lists, keeping what is known of
/// them, else those known before.
pub open spec fn inputs_recorded(
    capabilities: Option<InputCapabilitiesView>,
    previous: Option<MonitorConfigView>,
) -> Seq<MonitorInputView> {
    if listed(capabilities) {
        merged_inputs(capabilities->0.options, previous)
    } else {
        match previous {
            Some(p) => p.inputs,
            None => Seq::empty(),
        }
    }
}

pub open spec fn recorded_lines(inputs: Seq<MonitorInputView>) -> Seq<LineView> {
    inputs.map_values(
        |i: MonitorInputView|
            LineView::Out("    "@ + code_text(i.input_code) + "  "@ + i.display_name()),
    )
}

pub open spec fn inputs_lines(
    capabilities: Option<InputCapabilitiesView>,
    previous: Option<MonitorConfigView>,
) -> Seq<LineView> {
    if listed(capabilities) {
        said("  Inputs it reports:"@) + recorded_lines(inputs_recorded(capabilities, previous))
            + said("  (a claim by the monitor — some listed inputs may not exist)"@)
    } else {
        said("  It reported no input list; codes can be added by hand later."@)
    }
}

fn merge(option: &InputSourceOption, previous: Option<&MonitorConfig>) -> (r: MonitorInput)
    ensures
        r.deep_view() == merged_input(
            option.deep_view(),
            kept_input(opt_monitor(previous), option.deep_view()),
        ),
{
    let kept = match previous {
        Some(p) => p.input(option.code),
        None => None,
    };
    match kept {
        None => MonitorInput::reported(option.code, copy_opt(&option.label)),
        Some(k) => MonitorInput {
            input_code: option.code,
            label: match &k.label {
                Some(label) => Some(label.clone()),
                None => copy_opt(&option.label),
            },
            verification: k.verification,
            note: copy_opt(&k.note),
        },
    }
}

/// The inputs to record for a monitor, and what is said of them.
pub fn record_inputs(
    capabilities: &Option<InputCapabilities>,
    previous: Option<&MonitorConfig>,
) -> (r: (Vec<MonitorInput>, Page))
    ensures
        r.0.deep_view() == inputs_recorded(opt_capabilities(*capabilities), opt_monitor(previous)),
        r.1@ == inputs_lines(opt_capabilities(*capabilities), opt_monitor(previous)),
{
    let ghost prev = opt_monitor(previous);
    let mut page = Page::new();
    if let Some(caps) = capabilities {
        assert(caps.deep_view().options.len() == caps.options@.len());
        if caps.options.len() > 0 {
            let ghost want = merged_inputs(caps.deep_view().options, prev);
            let ghost lines = recorded_lines(want);
            page.put("  Inputs it reports:");
            let ghost head = page@;
            let mut inputs: Vec<MonitorInput> = Vec::new();
            let mut i: usize = 0;
            assert(inputs.deep_view() =~= want.take(0));
            assert(page@ =~= head + lines.take(0));
            while i < caps.options.len()
                invariant
                    i <= caps.options@.len(),
                    prev == opt_monitor(previous),
                    want == merged_inputs(caps.deep_view().options, prev),
                    lines == recorded_lines(want),
                    inputs.deep_view() == want.take(i as int),
                    page@ == head + lines.take(i as int),
                decreases caps.options@.len() - i,
            {
                assert(caps.deep_view().options[i as int] == caps.options@[i as int].deep_view());
                let input = merge(&caps.options[i], previous);
                assert(input.deep_view() == want[i as int]);
                page.say(
                    cat4(
                        "    ",
                        input.input_code.to_string().as_str(),
                        "  ",
                        input.display_name().as_str(),
                    ),
                );
                assert(page@ =~= head + lines.take(i as int + 1));
                let ghost had = inputs.deep_view();
                inputs.push(input);
                assert(inputs.deep_view() =~= had.push(want[i as int]));
                i += 1;
            }
            assert(want.take(want.len() as int) =~= want);
            assert(lines.take(lines.len() as int) =~= lines);
            page.put("  (a claim by the monitor — some listed inputs may not exist)");
            assert(page@ =~= inputs_lines(opt_capabilities(*capabilities), prev));
            return (inputs, page);
        }
    }
    page.put("  It reported no input list; codes can be added by hand later.");
    let inputs: Vec<MonitorInput> = match previous {
        Some(p) => copy_inputs(&p.inputs),
        None => Vec::new(),
    };
    assert(inputs.deep_view() =~= inputs_recorded(opt_capabilities(*capabilities), prev));
    assert(page@ =~= inputs_lines(opt_capabilities(*capabilities), prev));
    (inputs, page)
}

/// A name a person gave an input, how well it is known to work and what was
/// noted about it outlast setting up again.
pub proof fn law_what_is_known_of_an_input_is_kept(
    option: InputSourceOptionView,
    kept: MonitorInputView,
)
    ensures
        kept.label is Some ==> merged_input(option, Some(kept)).label == kept.label,
        merged_input(option, Some(kept)).verification == kept.verification,
        merged_input(option, Some(kept)).note == kept.note,
        merged_input(option, Some(kept)).input_code == option.code,
        merged_input(option, None).verification == Evidence::Reported,
{
}

/// A monitor as it is recorded: known by its serial where it has one, because
/// that follows the panel, and by its port where it has none.
pub open spec fn recorded(
    identity: MonitorIdentityView,
    label: Seq<char>,
    inputs: Seq<MonitorInputView>,
) -> MonitorConfigView {
    MonitorConfigView {
        key: match identity.serial {
            Some(serial) => serial,
            None => identity.backend_id,
        },
        label,
        backend_id: identity.backend_id,
        serial: identity.serial,
        model: identity.model,
        inputs,
    }
}

pub fn record_monitor(identity: &MonitorIdentity, label: String, inputs: Vec<MonitorInput>) -> (r:
    MonitorConfig)
    ensures
        r.deep_view() == recorded(identity.deep_view(), label@, inputs.deep_view()),
{
    let key = match &identity.serial {
        Some(serial) => serial.clone(),
        None => identity.backend_id.clone(),
    };
    MonitorConfig {
        key,
        label,
        backend_id: identity.backend_id.clone(),
        serial: copy_opt(&identity.serial),
        model: copy_opt(&identity.model),
        inputs,
    }
}

// ---------------------------------------------------------------------------
// Finishing
// ---------------------------------------------------------------------------

/// A step names no monitor, or one of these.
pub open spec fn step_refers(step: ActionStepView, monitors: Seq<MonitorConfigView>) -> bool {
    match step.monitor_name() {
        None => true,
        Some(name) => name.len() == 0 || exists|i: int|
            0 <= i < monitors.len() && (#[trigger] monitors[i]).matches(name),
    }
}

/// Every step of an action names no monitor or one of these.
pub open spec fn still_works(monitors: Seq<MonitorConfigView>) -> spec_fn(ActionView) -> bool {
    |action: ActionView|
        forall|i: int|
            0 <= i < action.steps.len() ==> step_refers(#[trigger] action.steps[i], monitors)
}

/// The configuration to save. Actions that refer to a monitor left out this
/// time are dropped, rather than saved to fail when a hotkey is pressed.
pub open spec fn finished(config: ConfigView) -> Result<ConfigView, Seq<char>> {
    if config.monitors.len() == 0 {
        Err("No monitor was selected, so there is nothing to save."@)
    } else {
        Ok(
            ConfigView {
                actions: config.actions.filter(still_works(config.monitors)),
                ..config
            },
        )
    }
}

fn refers(step_monitor: Option<&str>, monitors: &Vec<MonitorConfig>) -> (r: bool)
    ensures
        r == match opt_str(step_monitor) {
            None => true,
            Some(name) => name.len() == 0 || exists|i: int|
                0 <= i < monitors.deep_view().len() && (#[trigger] monitors.deep_view()[i]).matches(
                    name,
                ),
        },
{
    match step_monitor {
        None => true,
        Some(name) => {
            if name.unicode_len() == 0 {
                return true;
            }
            let ghost all = monitors.deep_view();
            let mut i: usize = 0;
            while i < monitors.len()
                invariant
                    i <= monitors@.len(),
                    all == monitors.deep_view(),
                    opt_str(step_monitor) == Some(name@),
                    forall|j: int| 0 <= j < i ==> !(#[trigger] all[j]).matches(name@),
                decreases monitors@.len() - i,
            {
                assert(all[i as int] == monitors@[i as int].deep_view());
                if monitors[i].matches(name) {
                    assert(monitors.deep_view()[i as int].matches(name@));
                    return true;
                }
                i += 1;
            }
            false
        },
    }
}

fn works(action: &Action, monitors: &Vec<MonitorConfig>) -> (r: bool)
    ensures
        r == still_works(monitors.deep_view())(action.deep_view()),
{
    let ghost a = action.deep_view();
    let ghost ms = monitors.deep_view();
    let mut i: usize = 0;
    while i < action.steps.len()
        invariant
            i <= action.steps@.len(),
            a == action.deep_view(),
            ms == monitors.deep_view(),
            forall|j: int| 0 <= j < i ==> step_refers(#[trigger] a.steps[j], ms),
        decreases action.steps@.len() - i,
    {
        assert(a.steps[i as int] == action.steps@[i as int].deep_view());
        if !refers(action.steps[i].monitor_name(), monitors) {
            assert(!step_refers(a.steps[i as int], ms));
            return false;
        }
        i += 1;
    }
    true
}

pub open spec fn config_result(r: Result<Config, String>) -> Result<ConfigView, Seq<char>> {
    match r {
        Ok(c) => Ok(c.deep_view()),
        Err(e) => Err(e@),
    }
}

/// Finishes a configuration that is to be saved.
pub fn finish_config(config: Config) -> (r: Result<Config, String>)
    ensures
        config_result(r) == finished(config.deep_view()),
{
    if config.monitors.len() == 0 {
        return Err("No monitor was selected, so there is nothing to save.".to_owned());
    }
    let ghost c = config.deep_view();
    let ghost p = still_works(c.monitors);
    let mut kept: Vec<Action> = Vec::new();
    let mut i: usize = 0;
    proof {
        lemma_filter_take_none(c.actions, p);
        assert(kept.deep_view() =~= c.actions.take(0).filter(p));
    }
    while i < config.actions.len()
        invariant
            i <= config.actions@.len(),
            c == config.deep_view(),
            p == still_works(c.monitors),
            kept.deep_view() == c.actions.take(i as int).filter(p),
        decreases config.actions@.len() - i,
    {
        let action = &config.actions[i];
        proof {
            lemma_filter_take(c.actions, p, i as int);
            assert(c.actions[i as int] == action.deep_view());
        }
        if works(action, &config.monitors) {
            let ghost had = kept.deep_view();
            kept.push(action.clone());
            assert(kept.deep_view() =~= had.push(c.actions[i as int]));
        }
        i += 1;
    }
    proof {
        lemma_filter_take_none(c.actions, p);
    }
    let mut config = config;
    config.actions = kept;
    Ok(config)
}

/// A saved configuration has no action that refers to a monitor it does not
/// have, and no action that still works is lost.
pub proof fn law_saved_actions_refer_to_saved_monitors(config: ConfigView, i: int)
    requires
        finished(config) is Ok,
        0 <= i < config.actions.len(),
    ensures
        still_works(config.monitors)(config.actions[i]) ==> finished(config)->Ok_0.actions.contains(
            config.actions[i],
        ),
        forall|k: int|
            0 <= k < finished(config)->Ok_0.actions.len() ==> still_works(config.monitors)(
                #[trigger] finished(config)->Ok_0.actions[k],
            ),
        finished(config)->Ok_0.monitors == config.monitors,
{
    lemma_filter_members(config.actions, still_works(config.monitors));
}

pub open spec fn closing_lines(path: Seq<char>) -> Seq<LineView> {
    said("\nSaved to "@ + path) + said(
        "\nNext: `desktop-switcher monitors` lists the inputs, and"@,
    ) + said("`desktop-switcher set <monitor> 0xNN` changes one."@)
}

/// What configuring ends with.
pub fn closing(path: &str) -> (r: Page)
    ensures
        r@ == closing_lines(path@),
{
    let mut page = Page::new();
    page.say(cat2("\nSaved to ", path));
    page.put("\nNext: `desktop-switcher monitors` lists the inputs, and");
    page.put("`desktop-switcher set <monitor> 0xNN` changes one.");
    assert(page@ =~= closing_lines(path@));
    page
}

/// A monitor that was just recorded is the display that it was recorded from:
/// it is bound to it at once, under the name it was given and with its inputs,
/// wherever no other display could be taken for it.
pub proof fn law_a_recorded_monitor_is_bound_to_its_display(
    all: Seq<DetectedMonitorView>,
    i: int,
    label: Seq<char>,
    inputs: Seq<MonitorInputView>,
)
    requires
        0 <= i < all.len(),
        all[i].identity.transport is DdcCi,
        forall|j: int|
            0 <= j < all.len() && j != i ==> match all[i].identity.serial {
                Some(serial) => (#[trigger] all[j]).identity.serial != Some(serial),
                None => all[j].identity.backend_id != all[i].identity.backend_id,
            },
    ensures
        ({
            let m = recorded(all[i].identity, label, inputs);
            &&& resolution(m, all) matches Ok(b) && b.detected == all[i] && b.monitor == m
            &&& m.label == label
            &&& m.inputs == inputs
            &&& m.model == all[i].identity.model
            &&& m.serial == all[i].identity.serial
            &&& m.backend_id == all[i].identity.backend_id
        }),
{
    let m = recorded(all[i].identity, label, inputs);
    law_the_only_display_that_may_be_it_is_bound(m, all, i);
}

/// A monitor that was just recorded answers to the name it was given, and to
/// its serial where it has one, else to its connection.
pub proof fn law_a_recorded_monitor_answers_to_its_names(
    identity: MonitorIdentityView,
    label: Seq<char>,
    inputs: Seq<MonitorInputView>,
    typed: Seq<char>,
)
    requires
        is_typed(label, typed) || match identity.serial {
            Some(serial) => is_typed(serial, typed),
            None => is_typed(identity.backend_id, typed),
        },
    ensures
        recorded(identity, label, inputs).matches(typed),
{
    law_a_monitor_answers_to_its_full_names(recorded(identity, label, inputs), typed);
}

/// Setting up again keeps every setting and every action; only the monitors are
/// recorded anew.
pub proof fn law_setting_up_again_keeps_the_settings(
    host: Seq<char>,
    backend: BackendKind,
    prev: ConfigView,
)
    ensures
        ({
            let c = begun(host, backend, Some(prev));
            &&& c.timeout_seconds == prev.timeout_seconds
            &&& c.settle_ms == prev.settle_ms
            &&& c.dedupe_ms == prev.dedupe_ms
            &&& c.tool_path == prev.tool_path
            &&& c.actions == prev.actions
            &&& c.monitors.len() == 0
            &&& c.host == host
            &&& c.backend == backend
        }),
        begun(host, backend, None).monitors.len() == 0,
        begun(host, backend, None).actions.len() == 0,
        begun(host, backend, None).host == host,
        begun(host, backend, None).backend == backend,
{
}

/// Every input that a monitor lists is recorded, in order and with its code,
/// under the name that it was known by where it was known; a monitor that lists
/// none keeps the inputs it had.
pub proof fn law_every_listed_input_is_recorded(
    capabilities: Option<InputCapabilitiesView>,
    previous: Option<MonitorConfigView>,
    k: int,
)
    ensures
        capabilities matches Some(c) && c.options.len() > 0 ==> {
            let r = inputs_recorded(capabilities, previous);
            &&& r.len() == capabilities->0.options.len()
            &&& 0 <= k < r.len() ==> {
                let o = capabilities->0.options[k];
                &&& r[k].input_code == o.code
                &&& match previous {
                    Some(p) => match p.input(o.code) {
                        Some(known) => {
                            &&& r[k].verification == known.verification
                            &&& r[k].note == known.note
                            &&& r[k].label == match known.label {
                                Some(label) => Some(label),
                                None => o.label,
                            }
                        },
                        None => r[k].label == o.label && r[k].verification == Evidence::Reported,
                    },
                    None => r[k].label == o.label && r[k].verification == Evidence::Reported,
                }
            }
        },
        !(capabilities matches Some(c) && c.options.len() > 0) ==> inputs_recorded(
            capabilities,
            previous,
        ) == match previous {
            Some(p) => p.inputs,
            None => Seq::empty(),
        },
{
}

/// What was found can be configured exactly where some display speaks DDC/CI
/// and no two have the same serial.
pub proof fn law_displays_can_be_configured_when_they_are_told_apart(
    detected: Seq<DetectedMonitorView>,
)
    ensures
        setup_problem(detected) is None <==> {
            &&& exists|i: int|
                0 <= i < detected.len() && (#[trigger] detected[i]).identity.transport is DdcCi
            &&& forall|i: int, j: int|
                0 <= i < j < detected.len() && (#[trigger] detected[i]).identity.serial is Some
                    ==> detected[i].identity.serial != (#[trigger] detected[j]).identity.serial
        },
{
    let p = is_switchable();
    lemma_filter_members(detected, p);
    let some = detected.filter(p);
    if some.len() > 0 {
        assert(p(some[0]) && detected.contains(some[0]));
        let i = choose|i: int| 0 <= i < detected.len() && detected[i] == some[0];
        assert(detected[i].identity.transport is DdcCi);
    }
    if exists|i: int|
        0 <= i < detected.len() && (#[trigger] detected[i]).identity.transport is DdcCi {
        let i = choose|i: int|
            0 <= i < detected.len() && (#[trigger] detected[i]).identity.transport is DdcCi;
        assert(p(detected[i]));
        assert(some.contains(detected[i]));
    }
    let told = repeated_serials(detected);
    if told.len() > 0 {
        assert(told.contains(told[0]));
        law_repeated_serials_are_those_of_two_displays(detected, told[0]);
    }
    assert forall|i: int, j: int|
        0 <= i < j < detected.len() && (#[trigger] detected[i]).identity.serial is Some
            && told.len() == 0 implies detected[i].identity.serial != (
    #[trigger] detected[j]).identity.serial by {
        law_repeated_serials_are_those_of_two_displays(detected, detected[i].identity.serial->0);
    }
}

/// This machine is called what the environment says, else what the system's
/// file says, without the white space around it; by a name that says nothing it
/// is not called.
pub proof fn law_a_machine_is_called_what_it_is_told(
    from_env: Option<Seq<char>>,
    from_file: Option<Seq<char>>,
)
    ensures
        from_env matches Some(name) && says_something(name) ==> host_name(from_env, from_file)
            == trimmed(from_env->0),
        from_env is None && (from_file matches Some(name) && says_something(name)) ==> host_name(
            from_env,
            from_file,
        ) == trimmed(from_file->0),
        host_name(from_env, from_file).len() > 0,
{
    reveal_strlit("this-computer");
    if let Some(name) = from_env {
        law_a_blank_text_is_all_white_space(name);
    }
    if let Some(name) = from_file {
        law_a_blank_text_is_all_white_space(name);
    }
}

/// A step refers to something there where it names no monitor, or one that any
/// of the monitors answers to.
pub proof fn law_a_step_refers_to_any_monitor(
    step: ActionStepView,
    monitors: Seq<MonitorConfigView>,
    i: int,
)
    requires
        0 <= i < monitors.len(),
    ensures
        step.monitor_name() is None ==> step_refers(step, monitors),
        step.monitor_name() matches Some(name) ==> (monitors[i].matches(name) ==> step_refers(
            step,
            monitors,
        )),
        step_refers(step, monitors) ==> (step.monitor_name() matches Some(name) ==> name.len() == 0
            || exists|k: int| 0 <= k < monitors.len() && (#[trigger] monitors[k]).matches(name)),
{
}

/// What is saved has a monitor, and of the actions all those whose steps still
/// refer to something there; no setting is lost for it.
pub proof fn law_actions_that_still_work_are_saved(config: ConfigView, i: int)
    requires
        0 <= i < config.actions.len(),
    ensures
        finished(config) is Ok <==> config.monitors.len() > 0,
        finished(config) matches Ok(saved) ==> {
            &&& saved.monitors == config.monitors
            &&& saved.host == config.host && saved.backend == config.backend
            &&& saved.actions.contains(config.actions[i]) <==> forall|k: int|
                0 <= k < config.actions[i].steps.len() ==> step_refers(
                    #[trigger] config.actions[i].steps[k],
                    config.monitors,
                )
        },
{
    if config.monitors.len() > 0 {
        let p = still_works(config.monitors);
        lemma_filter_members(config.actions, p);
        let kept = config.actions.filter(p);
        if kept.contains(config.actions[i]) {
            let k = choose|k: int| 0 <= k < kept.len() && kept[k] == config.actions[i];
            assert(p(kept[k]));
        }
        if p(config.actions[i]) {
            assert(kept.contains(config.actions[i]));
        }
    }
}

} // verus!

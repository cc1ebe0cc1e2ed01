//! What the commands say and do, against the in-memory backend. The property
//! that most of these protect: a command either has a fully identified monitor
//! and writes, or it refuses and writes nothing.

use desktop_switcher::actions::{Action, ActionStep};
use desktop_switcher::backend::MonitorBackend;
use desktop_switcher::clock::Clock;
use desktop_switcher::commands::{
    actions, begin_action, begin_set, busy, learn_from, open_action, proceed, refused,
    require_config, set_input, status, toggle_line, ActionStart, Carried, Next, SetStart,
};
use desktop_switcher::config::{BackendKind, Config, MonitorConfig, MonitorInput};
use desktop_switcher::desktop::{DesktopDisplay, Rect};
use desktop_switcher::doctor::{doctor, Setup, Told};
use desktop_switcher::eventlog::EventLog;
use desktop_switcher::fake::{FakeBackend, FakeMonitor};
use desktop_switcher::inventory::bind;
use desktop_switcher::listing::monitors;
use desktop_switcher::lookup::{find_configured, known_inputs, shell_quote, unanswered, whereabouts, Whereabouts};
use desktop_switcher::page::{textwrap, Line, Page};
use desktop_switcher::switch::{plan_set_input, GuardError, LastRequest, StepReport};
use desktop_switcher::survey::{begin_toggle, look_over, read_all, ToggleStart};
use desktop_switcher::types::{Evidence, InputCode, InputReading, WriteOutcome};

fn out_of(page: &Page) -> String {
    let mut text = String::new();
    for line in &page.lines {
        if let Line::Out(l) = line {
            text.push_str(l);
            text.push('\n');
        }
    }
    text
}

fn err_of(page: &Page) -> String {
    let mut text = String::new();
    for line in &page.lines {
        if let Line::Aside(l) = line {
            text.push_str(l);
            text.push('\n');
        }
    }
    text
}

fn combined(page: &Page) -> String {
    format!("{}{}", out_of(page), err_of(page))
}

fn panel(serial: &str, label: &str, backend_id: &str) -> MonitorConfig {
    let input = |code: u8, label: &str| MonitorInput {
        input_code: InputCode(code),
        label: Some(label.into()),
        verification: Evidence::Unknown,
        note: None,
    };
    MonitorConfig {
        key: serial.into(),
        label: label.into(),
        backend_id: backend_id.into(),
        serial: Some(serial.into()),
        model: Some("27P2DG5".into()),
        inputs: vec![input(0x11, "HDMI-1"), input(0x0F, "DisplayPort-1")],
    }
}

/// Two monitors, each with two inputs. Nothing names a computer.
fn config() -> Config {
    let mut c = Config::new("test-host", BackendKind::Fake);
    c.settle_ms = 0;
    c.dedupe_ms = 0;
    c.monitors = vec![
        panel("FAKE-SN-L", "Left panel", "fake-left"),
        panel("FAKE-SN-R", "Right panel", "fake-right"),
    ];
    let step = |monitor: &str| ActionStep::SetInput {
        monitor: monitor.into(),
        code: InputCode(0x0F),
    };
    c.actions = vec![Action {
        name: "Desk setup".into(),
        hotkey: Some("CTRL+ALT+1".into()),
        steps: vec![step("FAKE-SN-L"), step("FAKE-SN-R")],
    }];
    c
}

fn backend() -> FakeBackend {
    FakeBackend::new(vec![
        FakeMonitor::new("fake-left", Some("FAKE-SN-L"), 0x11),
        FakeMonitor::new("fake-right", Some("FAKE-SN-R"), 0x0F),
        FakeMonitor::internal_panel("fake-internal"),
    ])
}

fn carry(config: &Config, be: &mut FakeBackend, monitor: &str, code: u8, dry_run: bool) -> Carried {
    let detected = be.discover().unwrap();
    set_input(
        config,
        &detected,
        monitor,
        InputCode(code),
        dry_run,
        be,
        &mut EventLog::disabled(),
        &mut Clock::new(|_ms: u64| {}),
    )
}

fn listed(config: Option<&Config>, be: &mut FakeBackend) -> Told {
    let detected = be.discover().unwrap();
    let seen = look_over(config, &detected, be);
    monitors("fake", config, &seen, &detected, &[])
}

fn stated(config: &Config, be: &mut FakeBackend, last: &LastRequest) -> Told {
    let detected = be.discover().unwrap();
    let bindings = bind(config, &detected);
    let readings = read_all(&bindings.bound, be);
    status(&bindings, &readings, last)
}

#[test]
fn each_panel_is_listed_with_its_inputs() {
    let told = listed(Some(&config()), &mut backend());
    let text = out_of(&told.page);
    assert_eq!(told.code, 0);
    assert!(text.contains("Left panel"), "{text}");
    assert!(text.contains("Right panel"), "{text}");
    assert!(text.contains("0x11"), "{text}");
    assert!(text.contains("0x0F"), "{text}");
}

#[test]
fn no_listing_names_a_computer() {
    let config = config();
    let mut be = backend();
    let pages = [
        listed(Some(&config), &mut be).page,
        stated(&config, &mut be, &LastRequest::default()).page,
        actions(&config, "config.toml").page,
    ];
    for page in pages {
        let text = combined(&page).to_lowercase();
        for forbidden in ["windows machine", "ubuntu", "destination"] {
            assert!(!text.contains(forbidden), "mentioned `{forbidden}`:\n{text}");
        }
    }
}

#[test]
fn setting_by_key_or_label_changes_that_monitor() {
    let mut be = backend();
    let done = carry(&config(), &mut be, "FAKE-SN-L", 0x0F, false);
    assert_eq!(done.told.code, 0, "{}", combined(&done.told.page));
    assert!(out_of(&done.told.page).contains("Left panel"));
    assert_eq!(be.writes(), vec![("fake-left".to_string(), InputCode(0x0F))]);

    let mut be = backend();
    assert_eq!(carry(&config(), &mut be, "Right panel", 0x0F, false).told.code, 0);
}

/// A read can be stale exactly when it matters, so a matching read is never a
/// reason to stay quiet.
#[test]
fn the_input_it_is_already_on_is_still_written() {
    let mut be = backend();
    let done = carry(&config(), &mut be, "FAKE-SN-L", 0x11, false);
    assert_eq!(done.told.code, 0);
    let text = out_of(&done.told.page);
    assert!(!text.contains("already on that input"), "{text}");
    assert!(text.contains("stored 0x11"), "{text}");
}

/// A read-back is the monitor quoting its own register, so it is never
/// evidence about the input.
#[test]
fn nothing_is_learnt_from_a_read_back() {
    let config = config();
    let mut be = backend();
    let done = carry(&config, &mut be, "FAKE-SN-L", 0x0F, false);
    let step: StepReport = done.step.unwrap();
    assert_eq!(step.outcome, WriteOutcome::StoredByMonitor(InputCode(0x0F)));
    let saved = learn_from(&config, "FAKE-SN-L", InputCode(0x0F), &step, "2026-01-02");
    for m in saved.as_ref().unwrap_or(&config).monitors.iter() {
        for i in &m.inputs {
            assert_eq!(i.verification, Evidence::Unknown);
        }
    }
}

#[test]
fn a_configured_input_is_switched_to_without_a_warning() {
    let mut be = backend();
    let done = carry(&config(), &mut be, "FAKE-SN-L", 0x0F, false);
    assert!(!combined(&done.told.page).to_lowercase().contains("warning"));
}

#[test]
fn a_bare_decimal_code_begins_nothing() {
    let c = config();
    let e = begin_set(Some(&c), "p", "FAKE-SN-L", "11", false, false, &LastRequest::default(), 0)
        .err()
        .unwrap();
    assert!(e.contains("0x"), "{e}");
}

#[test]
fn a_monitor_that_is_unknown_or_not_attached_is_refused() {
    let mut be = backend();
    let done = carry(&config(), &mut be, "nope", 0x11, false);
    assert_eq!(done.told.code, 2);
    assert!(err_of(&done.told.page).contains("FAKE-SN-L"));

    let mut c = config();
    c.monitors[1] = panel("SN-NOT-PRESENT", "Right panel", "fake-right");
    let done = carry(&c, &mut be, "SN-NOT-PRESENT", 0x0F, false);
    assert_eq!(done.told.code, 2);
    assert!(err_of(&done.told.page).contains("not attached"));
    assert!(be.writes().is_empty());

    let detected = be.discover().unwrap();
    let why = plan_set_input(&c, &detected, "nope", InputCode(0x11)).unwrap_err();
    assert_eq!(refused(&why).code, 2);
}

#[test]
fn a_trial_run_says_so_and_writes_nothing() {
    let mut be = backend();
    let done = carry(&config(), &mut be, "FAKE-SN-L", 0x0F, true);
    assert_eq!(done.told.code, 0);
    assert!(out_of(&done.told.page).contains("dry run"));
    assert!(be.writes().is_empty());
}

#[test]
fn a_repeat_within_the_window_is_ignored_unless_forced() {
    let mut c = config();
    c.dedupe_ms = 60_000;
    let first = begin_set(Some(&c), "p", "FAKE-SN-L", "0x0F", false, false, &LastRequest::default(), 1_000);
    let SetStart::Go { code, request, .. } = first.ok().unwrap() else {
        panic!("the first request goes ahead")
    };
    assert_eq!(code, InputCode(0x0F));
    let last = LastRequest::made_at(&request, 1_000);
    let second = begin_set(Some(&c), "p", "FAKE-SN-L", "0x0F", false, false, &last, 2_000);
    let SetStart::Repeat(told) = second.ok().unwrap() else {
        panic!("a repeat")
    };
    assert!(out_of(&told.page).contains("ignoring the repeat"));
    let forced = begin_set(Some(&c), "p", "FAKE-SN-L", "0x0F", false, true, &last, 2_000);
    assert!(matches!(forced, Ok(SetStart::Go { .. })));
}

#[test]
fn actions_are_shown_with_steps_and_hotkeys() {
    let told = actions(&config(), "config.toml");
    let text = out_of(&told.page);
    assert!(text.contains("Desk setup"), "{text}");
    assert!(text.contains("CTRL+ALT+1"), "{text}");
    assert!(text.contains("set FAKE-SN-L to 0x0F"), "{text}");
}

fn begin(c: &Config, name: &str, experimental: bool) -> Result<ActionStart, String> {
    begin_action(Some(c), "p", name, experimental, &LastRequest::default(), 0)
}

#[test]
fn an_action_takes_its_steps_in_turn() {
    let c = config();
    let ActionStart::Go(action) = begin(&c, "desk SETUP", false).ok().unwrap() else {
        panic!("goes ahead")
    };
    let mut log = EventLog::disabled();
    let mut text = combined(&open_action(&action, &mut log));
    let mut done = 0;
    let told = loop {
        match proceed(&action, done, 0, &mut log) {
            Next::Step { index, page } => {
                assert_eq!(index, done);
                text.push_str(&combined(&page));
                done += 1;
            }
            Next::Over(told) => break told,
        }
    };
    text.push_str(&combined(&told.page));
    assert_eq!(told.code, 0);
    assert!(text.contains("[1/2]"), "{text}");
    assert!(text.contains("[2/2]"), "{text}");
    assert!(text.contains("Done."), "{text}");
}

#[test]
fn an_action_stops_at_the_first_failure() {
    let c = config();
    let mut log = EventLog::disabled();
    let Next::Over(told) = proceed(&c.actions[0], 1, 2, &mut log) else {
        panic!("over")
    };
    assert_eq!(told.code, 2);
    assert!(combined(&told.page).contains("step 1 of 2"), "{}", combined(&told.page));
}

#[test]
fn an_action_that_is_not_there_lists_those_that_are() {
    let e = begin(&config(), "nope", false).err().unwrap();
    assert!(e.contains("Desk setup"), "{e}");
}

#[test]
fn an_experimental_step_asks_for_the_flag() {
    let mut c = config();
    c.actions[0].steps.push(ActionStep::Release { monitor: Some("FAKE-SN-L".into()) });
    let e = begin(&c, "Desk setup", false).err().unwrap();
    assert!(e.contains("--experimental"), "{e}");
    assert!(begin(&c, "Desk setup", true).is_ok());
}

#[test]
fn live_readings_are_kept_apart_from_intent() {
    let told = stated(&config(), &mut backend(), &LastRequest::made_at("Desk setup", 7));
    let text = out_of(&told.page);
    assert_eq!(told.code, 0);
    assert!(text.contains("Observed now"), "{text}");
    assert!(text.contains("Last requested by this tool"), "{text}");
    assert!(text.contains("intent, not proof"), "{text}");
}

#[test]
fn without_a_configuration_the_way_to_one_is_told() {
    let e = require_config(None, "config.toml").unwrap_err();
    assert!(e.contains("configure"), "{e}");
    assert!(begin_set(None, "p", "x", "0x11", false, false, &LastRequest::default(), 0).is_err());
}

#[test]
fn a_valid_configuration_has_no_blockers() {
    let c = config();
    let mut be = backend();
    let health = be.health();
    let setup = Some(Setup {
        config: &c,
        detected: be.discover(),
        displays: Vec::new(),
    });
    let told = doctor(&health, "config.toml", &setup, "events.log");
    assert_eq!(told.code, 0, "{}", combined(&told.page));
    assert!(out_of(&told.page).contains("No blockers"));
}

#[test]
fn a_switch_in_progress_is_told() {
    let told = busy(&GuardError::Busy { path: "lock".into() });
    assert_eq!(told.code, 2, "nothing was done, so this is no failed switch");
    assert!(!combined(&told.page).is_empty());
}

#[test]
fn textwrap_breaks_on_word_boundaries() {
    let lines = textwrap("one two three four five six seven", 12);
    assert!(lines.iter().all(|l| l.chars().count() <= 12), "{lines:?}");
    assert_eq!(lines.join(" "), "one two three four five six seven");
}

#[test]
fn textwrap_handles_empty_and_single_long_words() {
    assert!(textwrap("", 10).is_empty());
    assert_eq!(
        textwrap("supercalifragilistic", 5),
        vec!["supercalifragilistic"]
    );
}

#[test]
fn keys_with_spaces_are_quoted_in_suggested_commands() {
    assert_eq!(shell_quote("SN-1"), "SN-1");
    assert_eq!(shell_quote("Left monitor"), "\"Left monitor\"");
}

#[test]
fn a_display_may_be_attached_detached_or_absent() {
    let display = |attached: bool| DesktopDisplay {
        gdi_name: "g".into(),
        device_path: "fake-left".into(),
        friendly_name: None,
        rect: Rect { left: 0, top: 0, right: 1, bottom: 1 },
        is_primary: false,
        is_attached: attached,
        is_internal: false,
    };
    assert_eq!(whereabouts(&[display(true)], "fake-left"), Whereabouts::Attached);
    assert_eq!(whereabouts(&[display(false)], "fake-left"), Whereabouts::Detached);
    assert_eq!(whereabouts(&[], "fake-left"), Whereabouts::Absent);
}

#[test]
fn a_panel_is_known_by_its_serial() {
    let c = config();
    let detected = backend().discover().unwrap();
    let found = find_configured(&c, &detected[0].identity).unwrap();
    assert_eq!(found.key, "FAKE-SN-L");
    let missing = unanswered(&c, &vec![&detected[0].identity]);
    assert_eq!(missing.len(), 1);
    assert_eq!(missing[0].key, "FAKE-SN-R");
    assert_eq!(known_inputs(Some(found), &None).len(), 2);
}

#[test]
fn a_toggle_says_where_it_goes() {
    let line = toggle_line("Left panel", Some(InputCode(0x11)), InputCode(0x0F));
    assert!(line.contains("Left panel") && line.contains("0x0F"), "{line}");
}

#[test]
fn looking_around_writes_nothing() {
    let mut be = backend();
    let detected = be.discover().unwrap();
    let mut known = config();
    known.monitors[1].inputs.clear();
    let seen = look_over(Some(&known), &detected, &mut be);
    assert_eq!(seen.len(), 2);
    // Only the monitor whose inputs nobody wrote down is asked for them.
    assert!(seen[0].capabilities.is_none());
    assert_eq!(seen[1].capabilities.as_ref().map(|c| c.options.len()), Some(4));
    assert_eq!(seen[0].reading.as_ref().and_then(|r| r.value()), Some(InputCode(0x11)));
    let everything = look_over(None, &detected, &mut be);
    assert!(everything.iter().all(|s| s.capabilities.is_some()));
    let c = config();
    let bindings = bind(&c, &detected);
    assert_eq!(read_all(&bindings.bound, &mut be).len(), 2);
    assert!(be.writes().is_empty());
    assert_eq!(be.reads().len(), 6);
}

#[test]
fn a_monitor_that_does_not_answer_is_still_looked_at() {
    let mut be = backend();
    let detected = be.discover().unwrap();
    let c = config();
    let bindings = bind(&c, &detected);
    be.detach("fake-right");
    let seen = look_over(None, &detected, &mut be);
    assert_eq!(seen.len(), 2);
    assert!(seen[1].reading.is_none() && seen[1].capabilities.is_none());
    let readings = read_all(&bindings.bound, &mut be);
    assert!(matches!(readings[1], InputReading::ReadFailed { .. }));
}

#[test]
fn a_toggle_asks_the_monitor_first() {
    let c = config();
    let mut be = backend();
    let detected = be.discover().unwrap();
    let between = [InputCode(0x11), InputCode(0x0F)];
    let start = begin_toggle(&c, &detected, "FAKE-SN-L", between, &mut be);
    assert_eq!(
        start,
        ToggleStart::Go {
            code: InputCode(0x0F),
            line: "  Left panel reports 0x11; toggling to 0x0F".into()
        }
    );
    assert_eq!(be.reads(), vec!["fake-left".to_string()]);
    let start = begin_toggle(&c, &detected, "nope", between, &mut be);
    assert!(matches!(start, ToggleStart::Refused(told) if told.code == 2));
    assert_eq!(be.reads().len(), 1);
    be.detach("fake-left");
    let start = begin_toggle(&c, &detected, "FAKE-SN-L", between, &mut be);
    assert_eq!(
        start,
        ToggleStart::Go {
            code: InputCode(0x11),
            line: "  Left panel reports nothing readable; toggling to 0x11".into()
        }
    );
    assert!(be.writes().is_empty());
}

use desktop_switcher::actions::{Action, ActionStep};
use desktop_switcher::config::{BackendKind, Config, ConfigError, MonitorInput};
use desktop_switcher::editor::{
    apply_edit, button_for_destination, default_step, header, hotkey_from, kind_label,
    monitor_text, pick_kind, picked_monitor, run_button, split_args, step_kind, sweep_buttons,
    Edit, Session, StepKind,
};
use desktop_switcher::keyed::Keyed;
use desktop_switcher::paths::{
    config_dir, config_of, config_path_in, default_config_path, default_state_dir, state_of,
};
use desktop_switcher::prompt::{
    answer_to, ask_text, confirm_text, consent, line_read, said_yes_or_no, PromptError,
};
use desktop_switcher::setup::{
    begin_config, chosen_backend, chosen_timeout, chosen_tool, configurable, finish_config,
    record_inputs, record_monitor, suggested_name, system_hostname,
};
use desktop_switcher::shared::problem_line;
use desktop_switcher::types::{
    DetectedMonitor, Evidence, InputCapabilities, InputCode, InputSourceOption, MonitorIdentity,
    Transport,
};

fn identity() -> MonitorIdentity {
    MonitorIdentity {
        backend_id: "port-a".into(),
        discovery_index: Some(1),
        manufacturer: Some("AOC".into()),
        model: Some("27P2DG5".into()),
        serial: Some("SN".into()),
        transport: Transport::DdcCi,
    }
}

#[test]
fn choices_fall_back_to_the_configuration() {
    let mut c = Config::new("h", BackendKind::DdcutilCli);
    c.timeout_seconds = 7;
    c.tool_path = Some("/opt/tool".into());
    assert_eq!(
        chosen_backend(Some(BackendKind::Fake), Some(&c), BackendKind::PowerToysCli),
        BackendKind::Fake
    );
    assert_eq!(chosen_backend(None, Some(&c), BackendKind::PowerToysCli), BackendKind::DdcutilCli);
    assert_eq!(chosen_backend(None, None, BackendKind::PowerToysCli), BackendKind::PowerToysCli);
    assert_eq!(chosen_timeout(Some(&c)), 7);
    assert_eq!(chosen_tool(None, Some(&c)).as_deref(), Some("/opt/tool"));
    assert_eq!(chosen_tool(Some("/x".into()), Some(&c)).as_deref(), Some("/x"));
    assert_eq!(chosen_tool(None, None), None);
}

#[test]
fn a_host_has_some_name() {
    assert_eq!(system_hostname(Some("a".into()), Some("b".into())), "a");
    assert_eq!(system_hostname(None, Some("b\n".into())), "b");
    assert!(!system_hostname(None, None).is_empty());
}

#[test]
fn what_is_known_of_an_input_is_kept() {
    let previous = record_monitor(
        &identity(),
        "Left".into(),
        vec![MonitorInput {
            input_code: InputCode(0x11),
            label: Some("Laptop".into()),
            verification: Evidence::UserConfirmed,
            note: Some("seen".into()),
        }],
    );
    assert_eq!(previous.key, "SN");
    let caps = InputCapabilities {
        feature_present: true,
        options: vec![
            InputSourceOption::standard(InputCode(0x11)),
            InputSourceOption::standard(InputCode(0x0F)),
        ],
        raw_capabilities: None,
        raw_output: String::new(),
    };
    let (inputs, _page) = record_inputs(&Some(caps), Some(&previous));
    assert_eq!(inputs.len(), 2);
    assert_eq!(inputs[0], previous.inputs[0]);
    assert_eq!(inputs[1].label.as_deref(), Some("DisplayPort-1"));
    assert_eq!(suggested_name(Some(&previous), &identity()), "Left");
}

#[test]
fn a_finished_configuration_is_valid() {
    let mut c = begin_config("h", BackendKind::Fake, None);
    c.monitors.push(record_monitor(
        &identity(),
        "Left".into(),
        vec![MonitorInput::reported(InputCode(0x11), None)],
    ));
    let mut kept = Action::new("Kept");
    kept.steps = vec![ActionStep::SetInput { monitor: "SN".into(), code: InputCode(0x11) }];
    let mut dropped = Action::new("Dropped");
    dropped.steps = vec![ActionStep::SetInput { monitor: "GONE".into(), code: InputCode(0x11) }];
    c.actions = vec![kept, dropped];
    let done = finish_config(c).unwrap();
    done.validate().unwrap();
    assert_eq!(done.actions.len(), 1);
    assert!(finish_config(Config::new("h", BackendKind::Fake)).is_err());
}

#[test]
fn only_a_switchable_display_can_be_configured() {
    let mut m = DetectedMonitor { identity: identity(), raw: String::new() };
    assert!(configurable(&[m.clone()]).is_ok());
    m.identity.transport = Transport::Wmi;
    assert!(configurable(&[m]).is_err());
    assert!(configurable(&[]).is_err());
}

// ---------------------------------------------------------------------------
// Asking
// ---------------------------------------------------------------------------

#[test]
fn an_answer_may_be_left_to_the_default() {
    assert_eq!(answer_to("left", Some("x")).as_deref(), Some("left"));
    assert_eq!(answer_to("", Some("x")).as_deref(), Some("x"));
    assert_eq!(answer_to("", None), None);
    assert!(ask_text("Name", Some("x")).contains('x'));
    assert!(confirm_text("Sure?").contains("Sure?"));
}

#[test]
fn silence_is_not_consent() {
    assert_eq!(said_yes_or_no("y"), Some(true));
    assert_eq!(consent("NO"), Some(false));
    assert_eq!(said_yes_or_no(""), None);
    assert_eq!(consent("Yes"), Some(true));
    assert_eq!(consent("maybe"), None);
    assert_eq!(consent(""), None);
    assert_eq!(line_read(0, ""), Err(PromptError::EndOfInput));
    assert_eq!(line_read(4, " y \n"), Ok("y".to_string()));
    for e in [PromptError::NotATerminal, PromptError::EndOfInput, PromptError::Io("x".into())] {
        assert!(!e.to_string().is_empty());
    }
}

// ---------------------------------------------------------------------------
// Paths
// ---------------------------------------------------------------------------

#[test]
fn files_live_where_the_system_keeps_them() {
    let told = || Some(("config".to_string(), "state".to_string()));
    assert_eq!(config_of(told()), Ok("config".to_string()));
    assert_eq!(state_of(told()), Ok("state".to_string()));
    assert_eq!(config_of(None), Err(ConfigError::NoConfigDir));
    assert_eq!(state_of(None), Err(ConfigError::NoConfigDir));
    for (dir, path) in [
        ("dir", "dir/config.toml"),
        ("dir/", "dir/config.toml"),
        ("/", "/config.toml"),
        ("", "config.toml"),
    ] {
        assert_eq!(config_path_in(Ok(dir.into())).unwrap(), path);
    }
    assert_eq!(
        config_path_in(Err(ConfigError::NoConfigDir)),
        Err(ConfigError::NoConfigDir)
    );
    match (config_dir(), default_config_path(), default_state_dir()) {
        (Ok(dir), Ok(path), Ok(state)) => {
            assert!(dir.contains("desktop-switcher"), "{dir}");
            assert!(path.starts_with(&dir) && path.ends_with("config.toml"), "{path}");
            assert!(state.contains("desktop-switcher"), "{state}");
        }
        (dir, path, state) => {
            assert_eq!(dir, Err(ConfigError::NoConfigDir));
            assert_eq!(path, Err(ConfigError::NoConfigDir));
            assert_eq!(state, Err(ConfigError::NoConfigDir));
        }
    }
    assert!(!problem_line(&ConfigError::NoConfigDir).is_empty());
}

// ---------------------------------------------------------------------------
// A map in key order
// ---------------------------------------------------------------------------

#[test]
fn what_is_kept_is_found() {
    let mut m: Keyed<u8> = Keyed::new();
    assert!(m.is_empty());
    m.insert("b".into(), 2);
    m.insert("a".into(), 1);
    m.insert("b".into(), 3);
    assert_eq!(m.keys(), vec!["a", "b"]);
    assert_eq!(m.get("b"), Some(&3));
    assert!(m.contains_key("a"));
    m.remove("b");
    assert_eq!(m.get("b"), None);
    m.remove("nothing");
    assert_eq!(m.keys(), vec!["a"]);
}

// ---------------------------------------------------------------------------
// Editing actions
// ---------------------------------------------------------------------------

fn names() -> Vec<String> {
    vec!["left".to_string(), "right".to_string()]
}

fn two_actions() -> Config {
    let mut c = Config::new("h", BackendKind::Fake);
    c.actions = vec![Action::new("one"), Action::new("two")];
    c
}

fn edited(edit: Edit) -> Config {
    let mut c = two_actions();
    apply_edit(&mut c, edit, &names(), &names());
    c
}

#[test]
fn each_edit_changes_its_action_and_no_other() {
    let c = edited(Edit::Rename { action: 0, name: "uno".into() });
    assert_eq!((c.actions[0].name.as_str(), c.actions[1].name.as_str()), ("uno", "two"));
    let c = edited(Edit::Hotkey { action: 1, line: "F1".into() });
    assert_eq!(c.actions[1].hotkey.as_deref(), Some("F1"));
    assert_eq!(c.actions[0], Action::new("one"));
    let c = edited(Edit::AddStep { action: 0, kind: StepKind::Sweep });
    assert_eq!(c.actions[0].steps.len(), 1);
    let c = edited(Edit::RemoveAction { action: 0 });
    assert_eq!(c.actions, vec![Action::new("two")]);
    let c = edited(Edit::NewAction);
    assert_eq!(c.actions.len(), 3);
}

#[test]
fn steps_are_changed_and_removed_in_place() {
    let mut c = edited(Edit::AddStep { action: 0, kind: StepKind::Run });
    let to = ActionStep::Run { command: "x".into(), args: vec![] };
    apply_edit(&mut c, Edit::Step { action: 0, step: 0, to: to.clone() }, &names(), &names());
    assert_eq!(c.actions[0].steps, vec![to]);
    apply_edit(&mut c, Edit::RemoveStep { action: 0, step: 0 }, &names(), &names());
    assert!(c.actions[0].steps.is_empty());
}

#[test]
fn kinds_of_steps_have_labels_and_defaults() {
    for kind in [
        StepKind::Switch,
        StepKind::Sweep,
        StepKind::Release,
        StepKind::Claim,
        StepKind::Primary,
        StepKind::Run,
    ] {
        let step = default_step(kind, &names(), &names());
        assert_eq!(step_kind(&step), Some(kind));
        assert!(!kind_label(kind).is_empty());
    }
    let mut step = default_step(StepKind::Sweep, &names(), &names());
    assert!(!pick_kind(&mut step, StepKind::Sweep, &names(), &names()));
    assert!(pick_kind(&mut step, StepKind::Run, &names(), &names()));
}

#[test]
fn lines_of_the_editor_are_read_back() {
    assert_eq!(split_args("a  b c"), vec!["a", "b", "c"]);
    assert_eq!(hotkey_from("   "), None);
    assert_eq!(hotkey_from(" F2").as_deref(), Some(" F2"));
    assert_eq!(picked_monitor(&monitor_text(&Some("left".into()))).as_deref(), Some("left"));
    assert!(header(0, "one").contains("one"));
}

#[test]
fn one_command_runs_at_a_time() {
    let mut s = Session::new();
    assert!(s.ask("first", true));
    assert!(!s.ask("second", true));
    s.end("first", true, "out".into());
    assert_eq!(s.running, None);
    assert_eq!(s.output, "out");
    assert!(s.ask("second", true));
    let mut s = Session::new();
    assert!(!s.ask("gone", false));
}

#[test]
fn unsaved_changes_are_remembered() {
    let mut s = Session::new();
    s.dirty = true;
    s.save_ended("p", &Some("disk full".into()));
    assert!(s.dirty);
    s.save_ended("p", &None);
    assert!(!s.dirty);
    s.dirty = true;
    s.reload_ended(&None);
    assert!(!s.dirty);
}

#[test]
fn buttons_run_the_commands_they_name() {
    assert_eq!(run_button("Desk setup").args, vec!["run-action", "Desk setup"]);
    assert!(!sweep_buttons(&names()).is_empty());
    let own = button_for_destination("left", "left");
    let other = button_for_destination("right", "left");
    assert_ne!(own.text, other.text);
}

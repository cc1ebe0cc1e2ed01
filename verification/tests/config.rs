use desktop_switcher::actions::{Action, ActionStep};
use desktop_switcher::config::{
    BackendKind, Config, ConfigError, MonitorConfig, MonitorInput, SCHEMA_VERSION,
};
use desktop_switcher::document::Node;
use desktop_switcher::legacy::{from_older_toml, migrate_v1, order_inputs};
use desktop_switcher::types::{Evidence, InputCode};

fn input(code: &str, label: &str) -> MonitorInput {
    MonitorInput {
        input_code: code.parse().unwrap(),
        label: Some(label.into()),
        verification: Evidence::UserConfirmed,
        note: None,
    }
}

fn monitor(key: &str, backend: &str) -> MonitorConfig {
    MonitorConfig {
        key: key.into(),
        label: format!("AOC 27P2DG5 ({key})"),
        backend_id: backend.into(),
        serial: Some(key.into()),
        model: Some("27P2DG5".into()),
        inputs: vec![input("0x11", "HDMI-1"), input("0x0F", "DisplayPort-1")],
    }
}

fn sample() -> Config {
    let mut c = Config::new("test-host", BackendKind::Fake);
    c.monitors.push(monitor("SN-LEFT", "port-a"));
    c.monitors.push(monitor("SN-RIGHT", "port-b"));
    c
}

#[test]
fn monitors_can_be_named_by_key_label_or_serial() {
    let c = sample();
    assert!(c.monitor("SN-LEFT").is_some());
    assert!(c.monitor("sn-left").is_some());
    assert!(c.monitor("AOC 27P2DG5 (SN-LEFT)").is_some());
    assert!(c.monitor("nope").is_none());
}

#[test]
fn duplicate_keys_and_connections_are_rejected() {
    let mut c = sample();
    c.monitors[1].key = "SN-LEFT".into();
    assert!(c.validate().is_err());

    let mut c = sample();
    c.monitors[1].backend_id = "port-a".into();
    assert!(c.validate().is_err());
}

#[test]
fn a_monitor_cannot_list_the_same_input_twice() {
    let mut c = sample();
    c.monitors[0].inputs.push(input("0x11", "HDMI again"));
    assert!(c.validate().unwrap_err().to_string().contains("twice"));
}

#[test]
fn an_action_naming_an_unknown_monitor_is_rejected_on_save() {
    // Better here than when a hotkey is pressed.
    let mut c = sample();
    c.actions.push(Action {
        name: "Broken".into(),
        hotkey: None,
        steps: vec![ActionStep::SetInput {
            monitor: "SN-GONE".into(),
            code: "0x11".parse().unwrap(),
        }],
    });
    let err = c.validate().unwrap_err().to_string();
    assert!(err.contains("SN-GONE"), "{err}");
}

#[test]
fn input_names_fall_back_sensibly() {
    let labelled = input("0x11", "Laptop");
    assert_eq!(labelled.display_name(), "Laptop");

    let unlabelled = MonitorInput::reported("0x0F".parse().unwrap(), None);
    assert_eq!(unlabelled.display_name(), "DisplayPort-1");

    let unknown = MonitorInput::reported("0x42".parse().unwrap(), None);
    assert_eq!(unknown.display_name(), "0x42");
}

/// The first schema was organised around destination computers. Upgrading has
/// to keep the verified codes and turn each destination into an action.
#[test]
fn a_schema_1_file_upgrades_into_monitors_and_actions() {
    let v1 = r#"
schema_version = 1
host = "BERKANT16X"
backend = "powertoys-cli"
self_destination = "windows"
timeout_seconds = 20
settle_ms = 900

[[monitors]]
logical_id = "main"
name = "AOC 27P2DG5"
backend_id = "\\?\\DISPLAY#AOC2702#UID4613"
serial = "ASFPA9A001108"
model = "27P2DG5"

[monitors.destinations.windows]
input_code = "0x11"
verification = "user-confirmed"

[monitors.destinations.ubuntu]
input_code = "0x0F"
verification = "user-confirmed"
"#;
    let config = from_older_toml(v1, &vec![]).unwrap().unwrap();
    assert_eq!(config.schema_version, SCHEMA_VERSION);
    assert_eq!(config.timeout_seconds, 20);
    assert_eq!(config.settle_ms, 900);
    // What named the PowerToys backend uses the built-in one.
    assert_eq!(config.backend, BackendKind::Windows);

    // The panel is keyed by serial, and keeps both verified inputs.
    assert_eq!(config.monitors.len(), 1);
    let monitor = &config.monitors[0];
    assert_eq!(monitor.key, "ASFPA9A001108");
    assert_eq!(monitor.inputs.len(), 2);
    assert!(monitor
        .inputs
        .iter()
        .all(|i| i.verification == Evidence::UserConfirmed));

    // Each old destination survives as an action the user can rename.
    let names: Vec<&str> = config.actions.iter().map(|a| a.name.as_str()).collect();
    assert!(names.contains(&"windows"), "{names:?}");
    assert!(names.contains(&"ubuntu"), "{names:?}");

    config.validate().unwrap();
}

#[test]
fn an_unknown_future_schema_is_refused_rather_than_guessed_at() {
    let mut c = sample();
    c.schema_version = 99;
    assert!(c.validate().is_err());
}

#[test]
fn an_upgraded_configuration_is_valid() {
    let v1 = r#"
schema_version = 1
host = "h"
backend = "fake"
self_destination = "a"

[[monitors]]
logical_id = "one"
name = "One"
backend_id = "b1"
serial = "S1"

[monitors.destinations.a]
input_code = "0x11"
verification = "user-confirmed"
"#;
    let config = from_older_toml(v1, &vec![]).unwrap().unwrap();
    config.validate().unwrap();
    assert_eq!(config.backend, BackendKind::Fake);
    assert_eq!(config.monitors[0].inputs[0].input_code, InputCode(0x11));
    assert_eq!(
        config.actions[0].steps,
        vec![ActionStep::SetInput {
            monitor: "S1".into(),
            code: InputCode(0x11)
        }]
    );
}

#[test]
fn a_current_file_is_left_to_be_read_as_it_stands() {
    assert_eq!(from_older_toml("schema_version = 2\n", &vec![]), Ok(None));
}

#[test]
fn text_that_is_no_toml_is_a_problem() {
    assert!(from_older_toml("schema_version = = 1", &vec![]).is_err());
    assert!(from_older_toml("schema_version = 1\n[[monitors]]\nname = 3\n", &vec![]).is_err());
}

#[test]
fn inputs_are_put_in_code_order() {
    let ordered = order_inputs(&vec![input("0x11", "b"), input("0x03", "c"), input("0x0F", "a")]);
    let codes: Vec<u8> = ordered.iter().map(|i| i.input_code.0).collect();
    assert_eq!(codes, vec![0x03, 0x0F, 0x11]);
}

#[test]
fn an_empty_file_of_the_first_schema_gets_the_defaults() {
    let config = migrate_v1(&Node::Table(vec![]), &vec![]).unwrap();
    assert_eq!(config, Config::new("this-computer", BackendKind::Fake));
}

#[test]
fn every_configuration_error_is_told() {
    for e in [
        ConfigError::Missing("p".into()),
        ConfigError::Read { path: "p".into(), detail: "d".into() },
        ConfigError::Write { path: "p".into(), detail: "d".into() },
        ConfigError::Parse { path: "p".into(), detail: "d".into() },
        ConfigError::Serialise("d".into()),
        ConfigError::NoConfigDir,
        ConfigError::Invalid("d".into()),
    ] {
        assert!(!e.to_string().is_empty());
    }
}

#[test]
fn inputs_are_found_and_changed_in_place() {
    let mut c = sample();
    assert_eq!(
        c.monitors[0].input(InputCode(0x11)).unwrap().label.as_deref(),
        Some("HDMI-1")
    );
    c.monitor_mut("SN-LEFT").unwrap().input_mut(InputCode(0x11)).unwrap().label =
        Some("Laptop".into());
    assert_eq!(c.monitors[0].inputs[0].label.as_deref(), Some("Laptop"));
    assert_eq!(c.monitors[1], monitor("SN-RIGHT", "port-b"));
    assert!(c.monitors[0].input(InputCode(0x42)).is_none());
}

#[test]
fn actions_are_found_by_name_whatever_the_case() {
    let mut c = sample();
    c.actions.push(Action::new("Desk setup"));
    assert_eq!(c.action("desk SETUP").unwrap().name, "Desk setup");
    assert!(c.action("other").is_none());
}

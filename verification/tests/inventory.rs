use desktop_switcher::config::{BackendKind, Config, MonitorConfig, MonitorInput};
use desktop_switcher::inventory::{bind, duplicate_serials, resolve_one, BindingProblem};
use desktop_switcher::types::{DetectedMonitor, Evidence, MonitorIdentity, Transport};

fn detected(backend_id: &str, serial: Option<&str>, transport: Transport) -> DetectedMonitor {
    DetectedMonitor {
        identity: MonitorIdentity {
            backend_id: backend_id.into(),
            discovery_index: None,
            manufacturer: Some("AOC".into()),
            model: Some("27P2DG5".into()),
            serial: serial.map(String::from),
            transport,
        },
        raw: format!("raw for {backend_id}"),
    }
}

fn cfg_monitor(id: &str, backend_id: &str, serial: Option<&str>) -> MonitorConfig {
    MonitorConfig {
        key: id.into(),
        label: id.into(),
        backend_id: backend_id.into(),
        serial: serial.map(String::from),
        model: Some("27P2DG5".into()),
        inputs: vec![MonitorInput {
            input_code: "0x11".parse().unwrap(),
            label: Some("windows".into()),
            verification: Evidence::UserConfirmed,
            note: None,
        }],
    }
}

fn config_with(monitors: Vec<MonitorConfig>) -> Config {
    let mut c = Config::new("host", BackendKind::Fake);
    c.monitors = monitors;
    c
}

#[test]
fn binds_by_serial() {
    let config = config_with(vec![
        cfg_monitor("left", "port-a", Some("SN-L")),
        cfg_monitor("right", "port-b", Some("SN-R")),
    ]);
    let present = vec![
        detected("port-b", Some("SN-R"), Transport::DdcCi),
        detected("port-a", Some("SN-L"), Transport::DdcCi),
    ];
    let set = bind(&config, &present);
    assert!(set.is_complete(), "{:?}", set.problems);
    assert_eq!(
        set.get("left").unwrap().detected.identity.backend_id,
        "port-a"
    );
    assert_eq!(
        set.get("right").unwrap().detected.identity.backend_id,
        "port-b"
    );
}

#[test]
fn reordered_discovery_does_not_change_bindings() {
    let config = config_with(vec![
        cfg_monitor("left", "port-a", Some("SN-L")),
        cfg_monitor("right", "port-b", Some("SN-R")),
    ]);
    let forwards = vec![
        detected("port-a", Some("SN-L"), Transport::DdcCi),
        detected("port-b", Some("SN-R"), Transport::DdcCi),
    ];
    let backwards: Vec<DetectedMonitor> = forwards.iter().rev().cloned().collect();
    let a = bind(&config, &forwards);
    let b = bind(&config, &backwards);
    assert_eq!(
        a.get("left").unwrap().detected.identity.backend_id,
        b.get("left").unwrap().detected.identity.backend_id
    );
}

#[test]
fn a_missing_monitor_is_reported_not_substituted() {
    let config = config_with(vec![cfg_monitor("left", "port-a", Some("SN-L"))]);
    let present = vec![detected("port-b", Some("SN-R"), Transport::DdcCi)];
    let set = bind(&config, &present);
    assert!(set.bound.is_empty());
    assert!(matches!(set.problems[0], BindingProblem::NotFound { .. }));
}

#[test]
fn duplicate_serials_make_the_binding_ambiguous_rather_than_arbitrary() {
    let config = config_with(vec![cfg_monitor("left", "port-a", Some("SAME"))]);
    let present = vec![
        detected("port-a", Some("SAME"), Transport::DdcCi),
        detected("port-b", Some("SAME"), Transport::DdcCi),
    ];
    let set = bind(&config, &present);
    assert!(set.bound.is_empty());
    assert!(matches!(set.problems[0], BindingProblem::Ambiguous { .. }));
    assert_eq!(duplicate_serials(&present), vec!["SAME"]);
}

#[test]
fn moving_a_panel_to_another_port_blocks_the_switch() {
    let config = config_with(vec![cfg_monitor("left", "port-a", Some("SN-L"))]);
    let present = vec![detected("port-c", Some("SN-L"), Transport::DdcCi)];
    let set = bind(&config, &present);
    let problem = &set.problems[0];
    assert!(matches!(problem, BindingProblem::PortChanged { .. }));
    assert!(problem.to_string().contains("configure"));
}

#[test]
fn internal_panel_is_never_bound_as_a_switch_target() {
    let config = config_with(vec![cfg_monitor("panel", "internal", Some("SN-P"))]);
    let present = vec![detected("internal", Some("SN-P"), Transport::Wmi)];
    let set = bind(&config, &present);
    assert!(set.bound.is_empty());
    assert!(matches!(
        set.problems[0],
        BindingProblem::NotSwitchable { .. }
    ));
}

#[test]
fn serialless_panels_bind_by_port_with_a_warning() {
    let config = config_with(vec![cfg_monitor("left", "port-a", None)]);
    let present = vec![detected("port-a", None, Transport::DdcCi)];
    let set = bind(&config, &present);
    assert!(set.is_complete());
    assert!(!set.get("left").unwrap().notes.is_empty());
}

#[test]
fn extra_displays_are_reported_as_unclaimed_not_ignored() {
    let config = config_with(vec![cfg_monitor("left", "port-a", Some("SN-L"))]);
    let present = vec![
        detected("port-a", Some("SN-L"), Transport::DdcCi),
        detected("port-z", Some("SN-Z"), Transport::DdcCi),
    ];
    let set = bind(&config, &present);
    assert_eq!(set.unclaimed.len(), 1);
    assert_eq!(set.unclaimed[0].identity.backend_id, "port-z");
}

#[test]
fn every_configured_monitor_is_bound_or_has_a_problem() {
    let config = config_with(vec![
        cfg_monitor("left", "port-a", Some("SN-L")),
        cfg_monitor("right", "port-b", Some("SN-R")),
        cfg_monitor("gone", "port-c", Some("SN-G")),
    ]);
    let present = vec![
        detected("port-a", Some("SN-L"), Transport::DdcCi),
        detected("port-x", Some("SN-R"), Transport::DdcCi),
    ];
    let set = bind(&config, &present);
    assert_eq!(set.bound.len() + set.problems.len(), 3);
    assert_eq!(set.bound[0].key(), "left");
}

#[test]
fn a_missing_monitor_may_turn_out_to_be_silent() {
    let config = config_with(vec![cfg_monitor("left", "port-a", Some("SN-L"))]);
    let set = bind(&config, &[]);
    let problem = &set.problems[0];
    assert!(problem.is_not_found());
    assert_eq!(problem.monitor(), "left");
    let silent = problem.as_present_but_silent().unwrap();
    assert!(matches!(silent, BindingProblem::NotAnswering { .. }));
    assert!(silent.as_present_but_silent().is_none());
    assert_ne!(silent.to_string(), problem.to_string());
}

#[test]
fn one_monitor_resolves_on_its_own() {
    let cfg = cfg_monitor("left", "port-a", Some("SN-L"));
    let present = vec![detected("port-a", Some("SN-L"), Transport::DdcCi)];
    let binding = resolve_one(&cfg, &present).ok().unwrap();
    assert_eq!(binding.handle().backend_id, "port-a");
    assert!(binding.notes.is_empty());
}

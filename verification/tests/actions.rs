use desktop_switcher::actions::{normalise_hotkey, validate_all, Action, ActionStep};
use desktop_switcher::types::InputCode;

fn switch_to(destination: &str) -> ActionStep {
    ActionStep::Switch {
        destination: destination.into(),
    }
}

fn action(name: &str, hotkey: Option<&str>) -> Action {
    Action {
        name: name.into(),
        hotkey: hotkey.map(String::from),
        steps: vec![switch_to("ubuntu")],
    }
}

#[test]
fn an_action_with_no_steps_is_rejected() {
    let mut a = action("Empty", None);
    a.steps.clear();
    assert!(a.validate().unwrap_err().contains("no steps"));
}

#[test]
fn a_switch_without_a_destination_is_rejected() {
    let a = Action {
        name: "Broken".into(),
        hotkey: None,
        steps: vec![switch_to("  ")],
    };
    assert!(a.validate().is_err());
}

#[test]
fn duplicate_names_are_rejected_case_insensitively() {
    let actions = vec![action("Go", None), action("go", None)];
    assert!(validate_all(&actions).unwrap_err().contains("both called"));
}

#[test]
fn two_actions_cannot_share_a_hotkey_even_written_differently() {
    // Windows would silently let one win, so catch it here instead.
    let actions = vec![
        action("First", Some("CTRL+ALT+1")),
        action("Second", Some("Alt+Ctrl+1")),
    ];
    assert!(validate_all(&actions).unwrap_err().contains("bound to"));
}

#[test]
fn different_hotkeys_are_fine() {
    let actions = vec![
        action("First", Some("CTRL+ALT+1")),
        action("Second", Some("CTRL+ALT+2")),
    ];
    assert!(validate_all(&actions).is_ok());
}

#[test]
fn names_that_collapse_to_the_same_slug_are_rejected() {
    // Both would want the same shortcut filename.
    let actions = vec![action("Go Ubuntu", None), action("go/ubuntu!", None)];
    assert!(validate_all(&actions).unwrap_err().contains("short name"));
}

#[test]
fn slugs_are_safe_and_never_empty() {
    assert_eq!(Action::new("Work on Ubuntu").slug(), "work-on-ubuntu");
    assert_eq!(Action::new("  Ubuntu!!  ").slug(), "ubuntu");
    assert_eq!(Action::new("///").slug(), "action");
    assert_eq!(Action::new("Türkçe ada").slug(), "t-rk-e-ada");
}

#[test]
fn experimental_steps_are_flagged_so_they_can_be_gated() {
    let safe = Action {
        name: "Safe".into(),
        hotkey: None,
        steps: vec![switch_to("ubuntu"), ActionStep::Sweep { monitor: None }],
    };
    assert!(!safe.needs_experimental());

    let risky = Action {
        name: "Risky".into(),
        hotkey: None,
        steps: vec![switch_to("ubuntu"), ActionStep::Release { monitor: None }],
    };
    assert!(risky.needs_experimental());
}

#[test]
fn steps_describe_themselves_readably() {
    assert_eq!(switch_to("ubuntu").summary(), "switch to ubuntu");
    assert_eq!(
        ActionStep::Sweep {
            monitor: Some("main".into())
        }
        .summary(),
        "sweep windows off main"
    );
    assert_eq!(
        ActionStep::Run {
            command: "x.exe".into(),
            args: vec!["-a".into()]
        }
        .summary(),
        "run x.exe -a"
    );
}

#[test]
fn hotkey_comparison_ignores_order_and_case() {
    assert_eq!(
        normalise_hotkey("ctrl+alt+1"),
        normalise_hotkey("ALT+CTRL+1")
    );
    assert_ne!(
        normalise_hotkey("CTRL+ALT+1"),
        normalise_hotkey("CTRL+ALT+2")
    );
}

#[test]
fn a_normal_hotkey_is_its_own_normal_form() {
    for (hotkey, normal) in [
        ("ctrl+alt+1", "1+ALT+CTRL"),
        (" Win + + shift+", "SHIFT+WIN"),
        ("", ""),
        ("+ +", ""),
        ("b+a+b", "A+B+B"),
    ] {
        assert_eq!(normalise_hotkey(hotkey), normal);
        assert_eq!(normalise_hotkey(normal), normal);
    }
}

#[test]
fn a_slug_of_a_slug_is_itself() {
    for name in ["Work on Ubuntu", "///", "a--b", "Türkçe ada"] {
        let once = Action::new(name).slug();
        assert_eq!(Action::new(&once).slug(), once);
    }
}

#[test]
fn an_unnamed_action_and_a_run_step_without_a_command_are_rejected() {
    assert_eq!(action("  ", None).validate().unwrap_err(), "an action needs a name");
    let a = Action {
        name: "Run".into(),
        hotkey: None,
        steps: vec![ActionStep::Run { command: " ".into(), args: vec![] }],
    };
    assert!(a.validate().unwrap_err().contains("no command"));
}

#[test]
fn set_and_toggle_steps_name_their_monitor() {
    let set = ActionStep::SetInput { monitor: "SN".into(), code: InputCode(0x0F) };
    assert_eq!(set.summary(), "set SN to 0x0F");
    assert_eq!(set.monitor_name(), Some("SN"));
    let toggle = ActionStep::ToggleInput {
        monitor: "SN".into(),
        between: [InputCode(0x11), InputCode(0x0F)],
    };
    assert_eq!(toggle.summary(), "toggle SN between 0x11 and 0x0F");
    assert_eq!(switch_to("x").monitor_name(), None);
}

use desktop_switcher::actions::Action;
use desktop_switcher::config::{BackendKind, Config, MonitorConfig, MonitorInput};
use desktop_switcher::menu::{
    build, dbus_text, find, inputs_to_offer, pretty_hotkey, windows_text, Command, Entry,
};
use desktop_switcher::types::{Evidence, InputCode};

fn input(code: u8, label: &str) -> MonitorInput {
    MonitorInput {
        input_code: InputCode(code),
        label: Some(label.into()),
        verification: Evidence::Reported,
        note: None,
    }
}

fn monitor(key: &str, label: &str, inputs: Vec<MonitorInput>) -> MonitorConfig {
    MonitorConfig {
        key: key.into(),
        label: label.into(),
        backend_id: format!("id-{key}"),
        serial: Some(key.into()),
        model: None,
        inputs,
    }
}

/// A laptop and a workstation sharing two panels.
fn desk() -> Config {
    let mut c = Config::new("laptop", BackendKind::Fake);
    let inputs = || {
        vec![
            input(0x01, "VGA-1"),
            input(0x03, "DVI-1"),
            input(0x11, "Laptop"),
            input(0x0F, "Workstation"),
        ]
    };
    c.monitors = vec![
        monitor("SN-L", "aoc-left", inputs()),
        monitor("SN-C", "aoc-center", inputs()),
    ];
    let mut left = Action::new("Toggle left");
    left.hotkey = Some("CTRL+ALT+1".into());
    let mut center = Action::new("Toggle center");
    center.hotkey = Some("CTRL+ALT+2".into());
    c.actions = vec![left, center, Action::new("Laptop")];
    c
}

/// Each entry as `label` or `label | detail`, for comparing whole menus.
fn shown(entries: &[Entry]) -> Vec<String> {
    entries
        .iter()
        .map(|e| match e {
            Entry::Item {
                label,
                detail: Some(d),
                ..
            } => format!("{label} | {d}"),
            Entry::Item { label, .. }
            | Entry::Note { label }
            | Entry::Submenu { label, .. } => label.clone(),
            Entry::Separator => "---".into(),
        })
        .collect()
}

#[test]
fn actions_come_first_with_their_hotkeys_then_monitors_then_settings() {
    let menu = build(Ok(&desk()));
    assert_eq!(
        shown(&menu),
        vec![
            "Toggle left | Ctrl+Alt+1",
            "Toggle center | Ctrl+Alt+2",
            "Laptop",
            "---",
            "aoc-left",
            "aoc-center",
            "---",
            "Settings…",
            "Quit",
        ]
    );
}

#[test]
fn an_action_runs_through_the_cli_by_name() {
    let menu = build(Ok(&desk()));
    let Entry::Item { command, .. } = &menu[1] else {
        panic!("not an item: {:?}", menu[1]);
    };
    assert_eq!(
        command,
        &Command::Cli {
            args: vec!["run-action".into(), "Toggle center".into()],
            describe: "Toggle center".into(),
        }
    );
}

/// A menu that offers VGA and DVI is a menu for putting a monitor to sleep
/// on a socket with nothing in it.
#[test]
fn a_monitor_offers_only_the_inputs_someone_named() {
    let menu = build(Ok(&desk()));
    let Entry::Submenu { entries, .. } = &menu[4] else {
        panic!("not a submenu: {:?}", menu[4]);
    };
    assert_eq!(shown(entries), vec!["Laptop | 0x11", "Workstation | 0x0F"]);
    let Entry::Item { command, .. } = &entries[1] else {
        panic!()
    };
    assert_eq!(
        command,
        &Command::Cli {
            args: vec!["set".into(), "SN-L".into(), "0x0F".into()],
            describe: "aoc-left: Workstation".into(),
        }
    );
}

/// Standard names, in any case, are what `configure` wrote, not a choice.
#[test]
fn with_nothing_named_every_input_is_offered() {
    let m = monitor(
        "SN",
        "panel",
        vec![input(0x11, "hdmi-1"), input(0x0F, "DisplayPort-1")],
    );
    assert_eq!(inputs_to_offer(&m).len(), 2);
}

#[test]
fn any_name_other_than_the_standard_one_counts_as_chosen() {
    let m = monitor(
        "SN",
        "panel",
        vec![input(0x11, "HDMI-1"), input(0x0F, "dp-1")],
    );
    let offered: Vec<u8> = inputs_to_offer(&m).iter().map(|i| i.input_code.0).collect();
    assert_eq!(offered, vec![0x0F]);
}

#[test]
fn a_monitor_with_no_inputs_has_no_submenu() {
    let mut c = desk();
    c.monitors[1].inputs.clear();
    let menu = build(Ok(&c));
    assert!(!shown(&menu).contains(&"aoc-center".to_string()));
}

fn collect(entries: &[Entry], seen: &mut Vec<u32>) {
    for e in entries {
        match e {
            Entry::Item { id, .. } => seen.push(*id),
            Entry::Submenu { entries, .. } => collect(entries, seen),
            _ => {}
        }
    }
}

/// What an id finds is the command of the very item that has it.
#[test]
fn every_id_finds_its_own_command() {
    fn items<'a>(entries: &'a [Entry], all: &mut Vec<(u32, &'a Command)>) {
        for e in entries {
            match e {
                Entry::Item { id, command, .. } => all.push((*id, command)),
                Entry::Submenu { entries, .. } => items(entries, all),
                _ => {}
            }
        }
    }
    for menu in [build(Ok(&desk())), build(Err("broken"))] {
        let mut all = Vec::new();
        items(&menu, &mut all);
        for (id, command) in &all {
            assert_eq!(find(&menu, *id), Some(*command), "{id}");
        }
    }
    let menu = build(Ok(&desk()));
    let Some(Command::Cli { args, .. }) = find(&menu, 5) else {
        panic!("no command");
    };
    assert_eq!(args, &["set", "SN-L", "0x0F"]);
}

#[test]
fn every_id_is_unique_and_findable() {
    let menu = build(Ok(&desk()));
    let mut seen = Vec::new();
    collect(&menu, &mut seen);
    let mut sorted = seen.clone();
    sorted.sort();
    sorted.dedup();
    assert_eq!(sorted.len(), seen.len());
    assert!(seen.iter().all(|&id| id != 0 && find(&menu, id).is_some()));
    assert_eq!(find(&menu, 999), None);
}

#[test]
fn a_missing_configuration_still_offers_settings_and_quit() {
    let menu = build(Err("No configuration yet"));
    assert_eq!(
        shown(&menu),
        vec!["No configuration yet", "---", "Settings…", "Quit"]
    );
}

#[test]
fn an_empty_configuration_says_so() {
    let c = Config::new("laptop", BackendKind::Fake);
    assert_eq!(shown(&build(Ok(&c)))[0], "Nothing configured yet");
}

#[test]
fn hotkeys_read_as_people_write_them() {
    assert_eq!(pretty_hotkey("CTRL+ALT+1"), "Ctrl+Alt+1");
    assert_eq!(pretty_hotkey("ctrl+shift+F12"), "Ctrl+Shift+F12");
    assert_eq!(pretty_hotkey("WIN+d"), "Win+D");
}

/// Windows eats a lone `&` as an accelerator marker, and a tab starts a
/// new column.
#[test]
fn windows_text_escapes_and_aligns() {
    assert_eq!(
        windows_text("Mail & chat", Some("Ctrl+M")),
        "Mail && chat\tCtrl+M"
    );
    assert_eq!(windows_text("a\tb", None), "a b");
}

/// In a D-Bus menu `_` marks the accelerator; a name like `left_panel`
/// would otherwise lose its underscore and underline a letter.
#[test]
fn dbus_text_escapes_and_brackets_the_detail() {
    assert_eq!(
        dbus_text("Toggle left", Some("Ctrl+Alt+1")),
        "Toggle left   (Ctrl+Alt+1)"
    );
    assert_eq!(dbus_text("left_panel", None), "left__panel");
}

#[test]
fn settings_and_quit_are_the_last_two() {
    for menu in [build(Ok(&desk())), build(Err("broken"))] {
        let n = menu.len();
        assert!(matches!(&menu[n - 2], Entry::Item { command: Command::OpenSettings, .. }));
        assert!(matches!(&menu[n - 1], Entry::Item { command: Command::Quit, .. }));
    }
}

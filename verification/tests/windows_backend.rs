use std::cell::{Cell, RefCell};

use desktop_switcher::backend::{BackendError, MonitorBackend};
use desktop_switcher::desktop::{DesktopDisplay, DesktopError, Rect};
use desktop_switcher::edid::EdidInfo;
use desktop_switcher::edid_source::registry_subpath;
use desktop_switcher::port::{Port, Wires};
use desktop_switcher::topology::{
    backend_id, capabilities_from, identity_for, locate, reading_from_reply, same_display, settle,
    Refusal, TopologyEntry, VCP_NOT_SUPPORTED,
};
use desktop_switcher::tries::Probe;
use desktop_switcher::types::{InputCode, InputReading, MonitorHandle, Transport, WriteOutcome};
use desktop_switcher::windows::{
    check_physical, check_serial, discover, health, health_elsewhere, open, read_input, retry,
    set_input, unsupported, DdcError, ATTEMPTS,
};
use desktop_switcher::windows_live::{topology_from, WindowsBackend, WindowsElsewhere};

const LEFT: &str = "\\\\?\\DISPLAY#AOC2702#4&34b9e9a7&0&UID4165";
const CENTER: &str = "\\\\?\\DISPLAY#AOC2702#4&34b9e9a7&0&UID8517";
const BUILT_IN: &str = "\\\\?\\DISPLAY#BOE0CBF#4&34b9e9a7&0&UID8388688";
const GUID: &str = "#{e6f07b5f-ee97-4a90-b076-33f57bf4eaa7}";

/// What one AOC panel says of itself.
const AOC_CAPS: &str = "(vcp(02 04 05 08 10 12 14(01 05 06 08 0B) 16 18 1A 52 60(01 03 11 0F ) 62 86(02 05) C8 C9 CC(01 02 03 04 05 06 07 09 0A 0B 0C 0D 0E 12 14 16 1E) B6 DF C6 DC(00 0B 0C 0D 0E 0F 10) D6(01 04) ED F8)prot(monitor)type(LCD)cmds(01 02 03 07 0C F3)mccs_ver(2.2)asset_eep(64)mpu_ver(005)model(27P2Q)mswhql(1))";

fn entry(path: &str, gdi: &str) -> TopologyEntry {
    TopologyEntry {
        device_path: format!("{path}{GUID}"),
        gdi_name: gdi.into(),
        internal: false,
        attached: true,
    }
}

fn desk() -> Vec<TopologyEntry> {
    let mut built_in = entry(BUILT_IN, "\\\\.\\DISPLAY1");
    built_in.internal = true;
    vec![
        built_in,
        entry(LEFT, "\\\\.\\DISPLAY2"),
        entry(CENTER, "\\\\.\\DISPLAY3"),
    ]
}

#[test]
fn the_id_is_the_device_path_without_its_interface_guid() {
    assert_eq!(backend_id(&format!("{LEFT}{GUID}")), LEFT);
    assert_eq!(backend_id(LEFT), LEFT);
}

#[test]
fn a_display_is_found_by_the_id_an_existing_configuration_holds() {
    let desk = desk();
    let found = locate(&desk, LEFT).unwrap();
    assert_eq!(found.gdi_name, "\\\\.\\DISPLAY2");
    // Case and the trailing GUID do not matter; either form addresses it.
    assert!(locate(&desk, &LEFT.to_lowercase()).is_ok());
    assert!(locate(&desk, &format!("{CENTER}{GUID}")).is_ok());
}

#[test]
fn a_longer_id_that_merely_starts_the_same_is_a_different_display() {
    let desk = desk();
    assert_eq!(
        locate(&desk, &format!("{LEFT}0")).unwrap_err(),
        Refusal::Absent
    );
}

#[test]
fn the_built_in_panel_is_never_a_target() {
    assert_eq!(locate(&desk(), BUILT_IN).unwrap_err(), Refusal::Internal);
}

#[test]
fn a_detached_display_has_nothing_to_address_it_through() {
    let mut desk = desk();
    desk[1].attached = false;
    assert_eq!(locate(&desk, LEFT).unwrap_err(), Refusal::Detached);
}

/// Mirroring puts two displays behind one GDI source, and nothing Windows
/// returns says which physical monitor is which. Detaching and attaching
/// displays can leave the panels mirrored.
#[test]
fn mirrored_displays_are_refused_rather_than_guessed() {
    let mut desk = desk();
    desk[2].gdi_name = desk[1].gdi_name.clone();
    assert_eq!(locate(&desk, LEFT).unwrap_err(), Refusal::Mirrored(2));
    assert_eq!(locate(&desk, CENTER).unwrap_err(), Refusal::Mirrored(2));
}

#[test]
fn the_same_display_listed_attached_and_detached_is_one_display() {
    let mut desk = desk();
    let mut stale = desk[1].clone();
    stale.attached = false;
    stale.gdi_name.clear();
    desk.push(stale);
    assert!(locate(&desk, LEFT).is_ok());
}

#[test]
fn two_attached_displays_with_one_id_are_ambiguous() {
    let mut desk = desk();
    let mut twin = desk[1].clone();
    twin.gdi_name = "\\\\.\\DISPLAY9".into();
    desk.push(twin);
    assert_eq!(locate(&desk, LEFT).unwrap_err(), Refusal::Ambiguous(2));
}

#[test]
fn identity_comes_from_the_topology_and_the_cached_edid() {
    let edid = EdidInfo {
        manufacturer: Some("AOC".into()),
        model_name: Some("27P2DG5".into()),
        serial_text: Some("ASFPA9A001109".into()),
        ..Default::default()
    };
    let id = identity_for(&desk()[1], 2, Some(&edid));
    assert_eq!(id.backend_id, LEFT);
    assert_eq!(id.serial.as_deref(), Some("ASFPA9A001109"));
    assert_eq!(id.model.as_deref(), Some("27P2DG5"));
    assert_eq!(id.transport, Transport::DdcCi);
}

/// The rule the whole backend exists for: being listed does not depend on
/// answering. A display with no EDID at all is still a display.
#[test]
fn a_display_is_listed_without_anything_being_asked_of_it() {
    let id = identity_for(&desk()[1], 2, None);
    assert_eq!(id.transport, Transport::DdcCi);
    assert_eq!(id.serial, None);
}

#[test]
fn the_built_in_panel_is_identified_as_such() {
    let id = identity_for(&desk()[0], 1, None);
    assert_eq!(id.transport, Transport::Internal);
    assert!(!id.transport.supports_input_switching());
}

#[test]
fn a_reply_reads_as_its_low_byte() {
    assert_eq!(
        reading_from_reply(0x11),
        InputReading::Value(InputCode(0x11))
    );
    assert_eq!(
        reading_from_reply(0x010F),
        InputReading::Value(InputCode(0x0F))
    );
}

#[test]
fn a_zero_reply_is_a_failed_read_not_an_input() {
    assert!(matches!(
        reading_from_reply(0),
        InputReading::ReadFailed { .. }
    ));
}

#[test]
fn real_capabilities_yield_the_advertised_inputs() {
    let caps = capabilities_from(AOC_CAPS).unwrap();
    assert!(caps.feature_present);
    let codes: Vec<u8> = caps.options.iter().map(|o| o.code.0).collect();
    assert_eq!(codes, vec![0x01, 0x03, 0x11, 0x0F]);
    assert_eq!(caps.options[2].label.as_deref(), Some("HDMI-1"));
}

#[test]
fn capabilities_without_feature_60_say_so() {
    let caps = capabilities_from("(vcp(02 10 12)type(LCD))").unwrap();
    assert!(!caps.feature_present);
    assert!(caps.options.is_empty());
}

#[test]
fn truncated_capabilities_are_an_error_not_an_empty_list() {
    assert!(capabilities_from("(vcp(02 10 60(01 03").is_err());
}

/// Seen on hardware: the second step of an action ran while Windows was
/// re-detecting after the first, found the two panels briefly mirrored,
/// and gave up. A second later the desktop was extended again.
#[test]
fn a_reshuffle_is_waited_out_rather_than_refused() {
    let script = RefCell::new(
        vec![
            Err(Refusal::Mirrored(2)),
            Err(Refusal::Absent),
            Ok("addressable"),
        ]
        .into_iter(),
    );
    let slept = Cell::new(0);
    let mut probe = Probe::new(
        || script.borrow_mut().next().unwrap(),
        || slept.set(slept.get() + 1),
    );
    let got = settle(10, &mut probe, &());
    assert_eq!(got, Ok("addressable"));
    assert_eq!(slept.get(), 2);
}

#[test]
fn a_desktop_that_stays_mirrored_is_still_refused() {
    let slept = Cell::new(0);
    let mut probe = Probe::new(
        || Err::<(), _>(Refusal::Mirrored(2)),
        || slept.set(slept.get() + 1),
    );
    let got: Result<(), _> = settle(5, &mut probe, &());
    assert_eq!(got, Err(Refusal::Mirrored(2)));
    assert_eq!(slept.get(), 4, "gives up after the attempts it was given");
}

/// Waiting cannot make the built-in panel switchable or two identical ids
/// distinguishable, so those answer at once.
#[test]
fn a_structural_refusal_is_not_waited_on() {
    for refusal in [Refusal::Internal, Refusal::Ambiguous(2)] {
        let slept = Cell::new(0);
        let mut probe = Probe::new(|| Err::<(), _>(refusal), || slept.set(slept.get() + 1));
        let got: Result<(), _> = settle(5, &mut probe, &());
        assert_eq!(got, Err(refusal));
        assert_eq!(slept.get(), 0);
    }
}

#[test]
fn a_settled_desktop_costs_no_waiting() {
    let slept = Cell::new(0);
    let mut probe = Probe::new(|| Ok::<_, Refusal>(1), || slept.set(slept.get() + 1));
    let got = settle(5, &mut probe, &());
    assert_eq!(got, Ok(1));
    assert_eq!(slept.get(), 0);
}

/// Every wait stands between two questions.
#[test]
fn asking_and_waiting_take_turns() {
    let told: RefCell<Vec<&str>> = RefCell::new(Vec::new());
    let mut probe = Probe::new(
        || {
            told.borrow_mut().push("ask");
            if told.borrow().len() < 5 {
                Err(Refusal::Detached)
            } else {
                Ok(3u8)
            }
        },
        || told.borrow_mut().push("sleep"),
    );
    assert_eq!(settle(9, &mut probe, &()), Ok(3));
    assert_eq!(*told.borrow(), vec!["ask", "sleep", "ask", "sleep", "ask"]);
    // It is asked once even with no attempts to spare.
    let asked = Cell::new(0);
    let mut once = Probe::new(
        || {
            asked.set(asked.get() + 1);
            Err::<u8, _>(Refusal::Absent)
        },
        || panic!("there is nothing to wait for"),
    );
    assert_eq!(settle(0, &mut once, &()), Err(Refusal::Absent));
    assert_eq!(asked.get(), 1);
}

#[test]
fn every_refusal_names_the_display() {
    for refusal in [
        Refusal::Absent,
        Refusal::Ambiguous(2),
        Refusal::Internal,
        Refusal::Detached,
        Refusal::Mirrored(2),
    ] {
        assert!(refusal
            .into_error("some-id")
            .to_string()
            .contains("some-id"));
    }
}

#[test]
fn derives_the_registry_path_from_a_real_device_path() {
    let path = registry_subpath("\\\\?\\DISPLAY#AOC2702#5&23e00778&0&UID4613").unwrap();
    assert_eq!(
        path,
        "SYSTEM\\CurrentControlSet\\Enum\\DISPLAY\\AOC2702\\5&23e00778&0&UID4613\\Device Parameters"
    );
}

#[test]
fn ignores_a_trailing_interface_guid() {
    let path = registry_subpath(
        "\\\\?\\DISPLAY#AOC2702#5&23e00778&0&UID4613#{e6f07b5f-ee97-4a90-b076-33f57bf4eaa7}",
    )
    .unwrap();
    assert!(path.ends_with("5&23e00778&0&UID4613\\Device Parameters"));
}

#[test]
fn refuses_non_display_and_malformed_paths() {
    assert!(registry_subpath("\\\\?\\USB#VID_046D#abc").is_none());
    assert!(registry_subpath("DISPLAY#AOC2702").is_none());
    assert!(registry_subpath("").is_none());
}

#[test]
fn refuses_path_components_that_would_escape_the_key() {
    assert!(registry_subpath("\\\\?\\DISPLAY#..#..\\..\\Something").is_none());
    assert!(registry_subpath("\\\\?\\DISPLAY#AOC2702#..").is_none());
}

// ---------------------------------------------------------------------------
// Opening a monitor
// ---------------------------------------------------------------------------

fn handle(serial: Option<&str>) -> MonitorHandle {
    MonitorHandle {
        backend_id: LEFT.into(),
        discovery_index: Some(2),
        model: None,
        serial: serial.map(String::from),
    }
}

fn edid_of(serial: &str) -> EdidInfo {
    EdidInfo {
        serial_text: Some(serial.into()),
        ..Default::default()
    }
}

fn opened(h: &MonitorHandle, count: usize, serial: &str) -> Result<String, BackendError> {
    let mut port = Port::new(Wires {
        topology: || Ok(desk()),
        lookup: |_path: &String| Some(edid_of(serial)),
        open_source: |_gdi: &String| Ok(count),
        get: |_gdi: &String, _code: u8| panic!("nothing is read"),
        set: |_gdi: &String, _code: u8, _value: u32| panic!("nothing is written"),
        ask: |_gdi: &String| panic!("nothing is asked"),
        pause: |_ms: u64| {},
    });
    open(h, false, &mut port)
}

/// The displays settle while a write waits for them, and what identifies the
/// monitor is asked before anything is written.
#[test]
fn a_write_waits_for_the_displays_and_identifies_the_monitor_first() {
    let told: RefCell<Vec<String>> = RefCell::new(Vec::new());
    let looks = Cell::new(0);
    let mut backend = WindowsBackend::new(Port::new(Wires {
        topology: || {
            told.borrow_mut().push("look".into());
            looks.set(looks.get() + 1);
            let mut all = desk();
            if looks.get() < 3 {
                all[2].gdi_name = all[1].gdi_name.clone();
            }
            Ok(all)
        },
        lookup: |_path: &String| {
            told.borrow_mut().push("identify".into());
            Some(edid_of("SN"))
        },
        open_source: |_gdi: &String| {
            told.borrow_mut().push("count".into());
            Ok(1)
        },
        get: |_gdi: &String, _code: u8| Ok(0x11),
        set: |_gdi: &String, _code: u8, _value: u32| {
            told.borrow_mut().push("write".into());
            Ok(())
        },
        ask: |_gdi: &String| Ok(AOC_CAPS.to_string()),
        pause: |ms: u64| told.borrow_mut().push(format!("wait {ms}")),
    }));
    assert_eq!(
        backend.set_input(&handle(Some("SN")), InputCode(0x0F)),
        Ok(WriteOutcome::Accepted)
    );
    assert_eq!(
        *told.borrow(),
        vec!["look", "wait 250", "look", "wait 250", "look", "identify", "count", "write"]
    );
}

#[test]
fn only_the_bound_monitor_is_opened() {
    assert_eq!(opened(&handle(Some("SN")), 1, "SN"), Ok("\\\\.\\DISPLAY2".to_string()));
    assert_eq!(opened(&handle(None), 1, "SN"), Ok("\\\\.\\DISPLAY2".to_string()));
    assert!(opened(&handle(Some("SN")), 1, "OTHER").is_err());
    assert!(opened(&handle(Some("SN")), 2, "SN").is_err());
    assert!(opened(&handle(Some("SN")), 0, "SN").is_err());
}

#[test]
fn a_serial_is_checked_when_both_sides_have_one() {
    assert!(check_serial(&handle(Some("SN")), &Some(edid_of("SN"))).is_none());
    assert!(check_serial(&handle(Some("SN")), &Some(edid_of("OTHER"))).is_some());
    assert!(check_serial(&handle(None), &Some(edid_of("OTHER"))).is_none());
    assert!(check_physical("id", &Ok(1)).is_none());
    assert!(check_physical("id", &Ok(3)).unwrap().to_string().contains("id"));
}

#[test]
fn an_exchange_is_retried_until_it_succeeds() {
    let tries = Cell::new(0);
    let waits = Cell::new(0);
    let mut probe = Probe::new(
        || {
            tries.set(tries.get() + 1);
            if tries.get() < 3 {
                Err(DdcError { code: 1, detail: "busy".into() })
            } else {
                Ok(7u8)
            }
        },
        || waits.set(waits.get() + 1),
    );
    let got = retry(3, &mut probe, &());
    assert_eq!(got, Ok(7));
    assert_eq!((tries.get(), waits.get()), (3, 2));
}

#[test]
fn an_exchange_refused_for_good_is_not_retried() {
    let tries = Cell::new(0);
    let mut probe = Probe::new(
        || {
            tries.set(tries.get() + 1);
            Err::<(), _>(DdcError { code: VCP_NOT_SUPPORTED, detail: "no".into() })
        },
        || panic!("there is nothing to wait for"),
    );
    let got: Result<(), DdcError> = retry(3, &mut probe, &());
    assert!(got.is_err());
    assert_eq!(tries.get(), 1);
}

#[test]
fn what_came_of_an_exchange_is_told() {
    assert_eq!(read_input(Ok(0x11)), InputReading::Value(InputCode(0x11)));
    assert!(read_input(Err(DdcError { code: 1, detail: "busy".into() })).value().is_none());
    assert_eq!(set_input(Ok(())), WriteOutcome::Accepted);
    assert!(matches!(
        set_input(Err(DdcError { code: 1, detail: "busy".into() })),
        WriteOutcome::Failed { .. }
    ));
    assert!(DdcError::from_windows("write", 0x1F, "generic").detail.contains("generic"));
}

#[test]
fn displays_are_listed_from_the_topology() {
    let mut port = Port::new(Wires {
        topology: || Ok(desk()),
        lookup: |path: &String| {
            if same_display(path, LEFT) {
                Some(edid_of("SN"))
            } else {
                None
            }
        },
        open_source: |_gdi: &String| panic!("nothing is opened"),
        get: |_gdi: &String, _code: u8| panic!("nothing is read"),
        set: |_gdi: &String, _code: u8, _value: u32| panic!("nothing is written"),
        ask: |_gdi: &String| panic!("nothing is asked"),
        pause: |_ms: u64| panic!("nothing is waited for"),
    });
    let found = discover(&desk(), &mut port);
    assert_eq!(found.len(), 3);
    assert_eq!(found[1].identity.serial.as_deref(), Some("SN"));
    assert_eq!(found[2].identity.serial, None);
}

#[test]
fn a_health_check_counts_the_monitors_that_answer() {
    let mut port = Port::new(Wires {
        topology: || Ok(desk()),
        lookup: |_path: &String| None,
        open_source: |_gdi: &String| Ok(1),
        get: |_gdi: &String, _code: u8| Ok(0x11),
        set: |_gdi: &String, _code: u8, _value: u32| Ok(()),
        ask: |_gdi: &String| Ok(AOC_CAPS.to_string()),
        pause: |_ms: u64| {},
    });
    let found = discover(&desk(), &mut port);
    let all = health(&Ok(found.clone()), &vec![true, true, true]);
    let none = health(&Ok(found), &vec![false, false, false]);
    assert_ne!(all.findings, none.findings);
    assert!(!health_elsewhere().is_usable());
    assert!(matches!(unsupported(), BackendError::Unsupported { .. }));
}

#[test]
fn keys_stay_under_the_display_devices() {
    for path in [
        "\\\\?\\DISPLAY#AOC2702#5&23e00778&0&UID4613",
        "\\\\?\\display#X#Y",
        "\\\\?\\DISPLAY#A/B#C",
    ] {
        if let Some(key) = registry_subpath(path) {
            assert!(key.starts_with("SYSTEM\\CurrentControlSet\\Enum\\DISPLAY\\"));
            assert!(!key.contains(".."));
        }
    }
}

#[test]
fn the_backend_writes_to_the_monitor_it_opened() {
    let sent: RefCell<Vec<(String, u8, u32)>> = RefCell::new(Vec::new());
    let mut backend = WindowsBackend::new(Port::new(Wires {
        topology: || Ok(desk()),
        lookup: |_path: &String| Some(edid_of("SN")),
        open_source: |_gdi: &String| Ok(1),
        get: |_gdi: &String, _code: u8| Ok(0x11),
        set: |gdi: &String, code: u8, value: u32| {
            sent.borrow_mut().push((gdi.clone(), code, value));
            Err(DdcError { code: 1, detail: "busy".into() })
        },
        ask: |_gdi: &String| Ok(AOC_CAPS.to_string()),
        pause: |_ms: u64| {},
    }));
    assert_eq!(backend.name(), "windows");
    assert_eq!(backend.discover().unwrap().len(), 3);
    assert!(backend.health().is_usable());
    assert_eq!(
        backend.read_input(&handle(Some("SN"))),
        Ok(InputReading::Value(InputCode(0x11)))
    );
    let caps = backend.input_capabilities(&handle(Some("SN"))).unwrap();
    assert_eq!(caps.options.len(), 4);

    assert!(backend.set_input(&handle(Some("OTHER")), InputCode(0x0F)).is_err());
    assert!(sent.borrow().is_empty(), "a refused monitor is sent nothing");
    assert!(matches!(
        backend.set_input(&handle(Some("SN")), InputCode(0x0F)),
        Ok(WriteOutcome::Failed { .. })
    ));
    assert_eq!(
        *sent.borrow(),
        vec![("\\\\.\\DISPLAY2".to_string(), 0x60, 0x0F); ATTEMPTS]
    );
}

#[test]
fn elsewhere_the_backend_refuses_everything() {
    let mut backend = WindowsElsewhere::new();
    assert!(!backend.health().is_usable());
    assert_eq!(backend.discover(), Err(unsupported()));
    assert_eq!(backend.read_input(&handle(None)), Err(unsupported()));
    assert_eq!(backend.input_capabilities(&handle(None)), Err(unsupported()));
    assert_eq!(backend.set_input(&handle(None), InputCode(1)), Err(unsupported()));
}

#[test]
fn the_topology_is_what_the_desktop_shows() {
    let shown = topology_from(Ok(vec![DesktopDisplay {
        gdi_name: "g".into(),
        device_path: "p".into(),
        friendly_name: None,
        rect: Rect { left: 0, top: 0, right: 1, bottom: 1 },
        is_primary: true,
        is_attached: true,
        is_internal: true,
    }]))
    .unwrap();
    assert_eq!(
        shown,
        vec![TopologyEntry {
            device_path: "p".into(),
            gdi_name: "g".into(),
            internal: true,
            attached: true,
        }]
    );
    let e = topology_from(Err(DesktopError::Unsupported)).unwrap_err();
    assert!(e.to_string().contains("reading the display topology"));
}

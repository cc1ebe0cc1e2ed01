use std::cell::RefCell;

use desktop_switcher::backend::{BackendError, MonitorBackend};
use desktop_switcher::console::DdcutilConsole;
use desktop_switcher::ddcutil::{
    bus_number, classify_failure, merge_capabilities, understand_reading, understand_write,
    DdcutilBackend,
};
use desktop_switcher::ddcutil_live::{count_shut, LiveDdcutil};
use desktop_switcher::ddcutil_parse::{
    parse_capabilities, parse_detect, parse_getvcp_input, DetectedDisplay, ParseError,
};
use desktop_switcher::proc::{CommandRun, ProcError};
use desktop_switcher::types::{InputCode, InputReading, MonitorHandle, WriteOutcome};

const DETECT: &str = "\
Display 1
   I2C bus:  /dev/i2c-5
   DRM connector:           card1-DP-1
   EDID synopsis:
      Mfg id:               AOC - AOC
      Model:                27P2Q
      Product code:         9986  (0x2702)
      Serial number:        ASFPA9A001108
      Binary serial number: 0 (0x00000000)
      Manufacture year:     2023,  Week: 41
   VCP version:         2.2

Display 2
   I2C bus:  /dev/i2c-6
   DRM connector:           card1-DP-2
   EDID synopsis:
      Mfg id:               AOC - AOC
      Model:                27P2Q
      Product code:         9986  (0x2702)
      Serial number:        ASFPA9A001109
      Binary serial number: 0 (0x00000000)
      Manufacture year:     2023,  Week: 41
   VCP version:         2.2

Invalid display
   I2C bus:  /dev/i2c-7
   DRM connector:           card1-eDP-1
   EDID synopsis:
      Mfg id:               BOE - BOE
      Model:
      Serial number:
   DDC communication failed
";

const CAPS: &str = "\
Model: 27P2Q
MCCS version: 2.2
Commands:
   Op Code: 01 (VCP Request)
   Op Code: 02 (VCP Response)
VCP Features:
   Feature: 10 (Brightness)
   Feature: 14 (Select color preset)
      Values:
         01: sRGB
         05: 6500K
   Feature: 60 (Input Source)
      Values:
         01: VGA-1
         03: DVI-1
         0f: DisplayPort-1
         11: HDMI-1
   Feature: 62 (Audio speaker volume)
";

fn ran(args: &[&str], status: i32, stdout: &str, stderr: &str) -> CommandRun {
    CommandRun {
        program: "ddcutil".into(),
        args: args.iter().map(|a| a.to_string()).collect(),
        status: Some(status),
        stdout: stdout.into(),
        stderr: stderr.into(),
        duration_ms: 0,
    }
}

fn handle() -> MonitorHandle {
    MonitorHandle {
        backend_id: "card1-DP-1".into(),
        discovery_index: Some(1),
        model: Some("27P2Q".into()),
        serial: Some("ASFPA9A001108".into()),
    }
}

fn backend() -> DdcutilBackend {
    DdcutilBackend::new("/nonexistent".into())
}

#[test]
fn extracts_bus_numbers() {
    assert_eq!(bus_number("/dev/i2c-5"), Some(5));
    assert_eq!(bus_number("/dev/i2c-12"), Some(12));
    assert_eq!(bus_number("i2c-0"), Some(0));
    assert_eq!(bus_number("/dev/ttyS0"), None);
}

#[test]
fn permission_errors_are_classified_with_a_non_sudo_remedy() {
    let run = ran(&["detect"], 1, "", "Error opening /dev/i2c-5: Permission denied");
    match classify_failure(&run) {
        BackendError::PermissionDenied { detail } => {
            assert!(detail.contains("i2c"));
            // The remedy must not be "run it as root".
            assert!(detail.contains("Do not run this tool with sudo"));
        }
        other => panic!("unexpected: {other:?}"),
    }
}

#[test]
fn missing_displays_are_classified_separately_from_generic_failures() {
    let run = ran(&["getvcp"], 1, "Display not found", "");
    assert!(matches!(
        classify_failure(&run),
        BackendError::MonitorNotFound { .. }
    ));
}

#[test]
fn unknown_failures_keep_their_exit_code_and_text() {
    let run = ran(&["setvcp"], 4, "", "DDC communication failed");
    match classify_failure(&run) {
        BackendError::CommandFailed { status, stderr, .. } => {
            assert_eq!(status, Some(4));
            assert!(stderr.contains("DDC communication failed"));
        }
        other => panic!("unexpected: {other:?}"),
    }
}

#[test]
fn a_serial_bearing_handle_is_addressed_by_identity_not_by_number() {
    let args = backend()
        .selector(
            &handle(),
            &mut DdcutilConsole::new(
                |_args: &Vec<String>| -> Result<CommandRun, ProcError> {
                    panic!("nothing has to be asked")
                },
                || None,
            ),
        )
        .unwrap();
    assert_eq!(args, vec!["--sn", "ASFPA9A001108", "--model", "27P2Q"]);
    // Crucially, the display number never appears.
    assert!(!args.iter().any(|a| a == "--display"));
}

#[test]
fn input_codes_are_formatted_as_ddcutil_expects() {
    for (code, text) in [(0x0Fu8, "0x0f"), (0x11u8, "0x11"), (0x01u8, "0x01")] {
        let asked: RefCell<Vec<Vec<String>>> = RefCell::new(Vec::new());
        let mut console = DdcutilConsole::new(
            |args: &Vec<String>| {
                asked.borrow_mut().push(args.clone());
                Ok(ran(&["setvcp"], 0, "", ""))
            },
            || None,
        );
        let outcome = backend().set_input(&handle(), InputCode(code), &mut console);
        assert_eq!(outcome, Ok(WriteOutcome::Accepted));
        assert_eq!(asked.borrow().len(), 1);
        assert_eq!(asked.borrow()[0].last().map(String::as_str), Some(text));
    }
}

#[test]
fn parses_two_panels_with_distinct_serials() {
    let displays = parse_detect(DETECT).unwrap();
    let valid: Vec<&DetectedDisplay> = displays.iter().filter(|d| !d.invalid).collect();
    assert_eq!(valid.len(), 2);
    assert_eq!(valid[0].serial.as_deref(), Some("ASFPA9A001108"));
    assert_eq!(valid[1].serial.as_deref(), Some("ASFPA9A001109"));
    assert_eq!(valid[0].manufacturer.as_deref(), Some("AOC"));
    assert_eq!(valid[0].model.as_deref(), Some("27P2Q"));
}

#[test]
fn prefers_the_drm_connector_as_the_stable_id() {
    let displays = parse_detect(DETECT).unwrap();
    assert_eq!(displays[0].stable_id(), "card1-DP-1");
}

#[test]
fn an_invalid_display_is_flagged_not_silently_dropped() {
    let displays = parse_detect(DETECT).unwrap();
    assert!(displays.iter().any(|d| d.invalid));
}

#[test]
fn empty_detect_output_is_an_error() {
    assert!(matches!(
        parse_detect("").unwrap_err(),
        ParseError::NoDisplays(_)
    ));
}

#[test]
fn parses_the_terse_getvcp_form() {
    assert_eq!(
        parse_getvcp_input("VCP 60 SNC x0f\n").unwrap(),
        InputCode(0x0F)
    );
    assert_eq!(
        parse_getvcp_input("VCP 60 SNC x11\n").unwrap(),
        InputCode(0x11)
    );
}

#[test]
fn parses_the_verbose_getvcp_form() {
    let text = "VCP code 0x60 (Input Source                  ): DisplayPort-1 (sl=0x0f)\n";
    assert_eq!(parse_getvcp_input(text).unwrap(), InputCode(0x0F));
}

#[test]
fn a_reading_for_another_feature_is_not_mistaken_for_the_input() {
    let text = "VCP code 0x10 (Brightness                    ): current value =    75\n";
    assert!(matches!(
        parse_getvcp_input(text).unwrap_err(),
        ParseError::NotInputSource(_)
    ));
}

#[test]
fn a_malformed_value_is_an_error_not_a_default() {
    assert!(parse_getvcp_input("VCP 60 SNC xZZ\n").is_err());
    assert!(parse_getvcp_input("VCP code 0x60 (Input Source): unknown\n").is_err());
}

#[test]
fn parses_capabilities_values() {
    let caps = parse_capabilities(CAPS).unwrap();
    assert!(caps.feature_present);
    let codes: Vec<u8> = caps.options.iter().map(|(c, _)| c.get()).collect();
    assert_eq!(codes, vec![0x01, 0x03, 0x0F, 0x11]);
    assert_eq!(caps.model.as_deref(), Some("27P2Q"));
    assert_eq!(caps.mccs_version.as_deref(), Some("2.2"));
}

#[test]
fn values_of_other_features_are_not_read_as_input_sources() {
    let text = "\
VCP Features:
   Feature: 14 (Select color preset)
      Values:
         01: sRGB
         05: 6500K
   Feature: 60 (Input Source)
      Values:
         0f: DisplayPort-1
   Feature: 86 (Display Scaling)
      Values:
         02: Scale to fit
";
    let caps = parse_capabilities(text).unwrap();
    let codes: Vec<u8> = caps.options.iter().map(|(c, _)| c.get()).collect();
    assert_eq!(codes, vec![0x0F]);
}

#[test]
fn a_monitor_without_feature_60_reports_absence_rather_than_an_empty_success() {
    let text = "Model: X\nVCP Features:\n   Feature: 10 (Brightness)\n";
    let caps = parse_capabilities(text).unwrap();
    assert!(!caps.feature_present);
    assert!(caps.options.is_empty());
}

#[test]
fn every_way_of_misreading_the_output_is_told() {
    assert!(matches!(
        parse_getvcp_input("VCP 60 SNC xZZ\n").unwrap_err(),
        ParseError::BadVcpValue(_)
    ));
    for e in [
        ParseError::NoDisplays("x".into()),
        ParseError::BadVcpValue("x".into()),
        ParseError::NotInputSource("x".into()),
        ParseError::Capabilities("x".into()),
    ] {
        assert!(!e.to_string().is_empty());
    }
}

#[test]
fn a_display_without_a_serial_is_addressed_by_its_bus() {
    let mut h = handle();
    h.serial = None;
    let mut console =
        DdcutilConsole::new(|_args: &Vec<String>| Ok(ran(&["detect"], 0, DETECT, "")), || None);
    let args = backend().selector(&h, &mut console).unwrap();
    assert_eq!(args, vec!["--bus", "5"]);
    h.backend_id = "card9-DP-9".into();
    assert!(matches!(
        backend().selector(&h, &mut console),
        Err(BackendError::MonitorNotFound { .. })
    ));
}

#[test]
fn displays_are_listed_as_ddcutil_names_them() {
    let mut console =
        DdcutilConsole::new(|_args: &Vec<String>| Ok(ran(&["detect"], 0, DETECT, "")), || None);
    let found = backend().discover(&mut console).unwrap();
    assert_eq!(found[0].identity.backend_id, "card1-DP-1");
    assert_eq!(found[0].identity.serial.as_deref(), Some("ASFPA9A001108"));
    assert_eq!(found[1].identity.discovery_index, Some(2));
    assert!(!found[2].identity.transport.supports_input_switching());
}

#[test]
fn an_exit_status_decides_what_became_of_a_write() {
    assert_eq!(understand_write(Ok(ran(&["setvcp"], 0, "", ""))), Ok(WriteOutcome::Accepted));
    assert!(matches!(
        understand_write(Ok(ran(&["setvcp"], 4, "", "no"))),
        Ok(WriteOutcome::Failed { .. })
    ));
    assert_eq!(
        understand_reading(Ok(ran(&["getvcp"], 0, "VCP 60 SNC x11\n", ""))),
        Ok(InputReading::Value(InputCode(0x11)))
    );
}

#[test]
fn a_tool_that_is_not_there_is_reported() {
    assert!(DdcutilBackend::locate(Some("/x"), false, None)
        .unwrap_err()
        .to_string()
        .contains("tool_path"));
    assert_eq!(DdcutilBackend::locate(None, false, Some("/usr/bin/ddcutil".into())).unwrap(), "/usr/bin/ddcutil");
    assert!(DdcutilBackend::locate(None, false, None).is_err());
}

#[test]
fn a_health_check_tells_about_devices_and_displays() {
    let h = backend().health(Ok("2.1.4".into()), Some((3, 0)), Ok(Vec::new()));
    assert_eq!(h.tool_version.as_deref(), Some("2.1.4"));
    let denied = backend().health(Ok("2.1.4".into()), Some((3, 3)), Ok(Vec::new()));
    assert_ne!(h.findings, denied.findings);
    assert_eq!(backend().name(), "ddcutil-cli");
    assert_eq!(backend().exe(), "/nonexistent");
}

#[test]
fn the_raw_string_stands_in_for_a_missing_table() {
    let bare = parse_capabilities("VCP Features:\n   Feature: 60 (Input Source)\n").unwrap();
    let merged = merge_capabilities(&bare, Some("(vcp(60(0F 11)))".into()), "out".into());
    let codes: Vec<u8> = merged.options.iter().map(|o| o.code.0).collect();
    assert_eq!(codes, vec![0x0F, 0x11]);
    assert_eq!(merged.options[0].label.as_deref(), Some("DisplayPort-1"));
    let listed = parse_capabilities(CAPS).unwrap();
    let merged = merge_capabilities(&listed, Some("(vcp(60(12)))".into()), "out".into());
    assert_eq!(merged.options.len(), 4);
}

#[test]
fn the_live_backend_runs_the_tool() {
    let asked: RefCell<Vec<String>> = RefCell::new(Vec::new());
    let console = DdcutilConsole::new(
        |args: &Vec<String>| {
            asked.borrow_mut().push(args.join(" "));
            if args.contains(&"detect".to_string()) {
                Ok(ran(&["detect"], 0, DETECT, ""))
            } else if args.contains(&"getvcp".to_string()) {
                Ok(ran(&["getvcp"], 0, "VCP 60 SNC x11\n", ""))
            } else {
                Ok(ran(&[], 0, CAPS, ""))
            }
        },
        || Some(vec![true, false]),
    );
    let mut live = LiveDdcutil::new(backend(), console);
    assert_eq!(live.name(), "ddcutil-cli");
    assert_eq!(live.discover().unwrap().len(), 3);
    assert_eq!(live.read_input(&handle()), Ok(InputReading::Value(InputCode(0x11))));
    assert_eq!(live.input_capabilities(&handle()).unwrap().options.len(), 4);
    assert!(
        !asked.borrow().iter().any(|a| a.contains("setvcp")),
        "what is only read writes nothing"
    );
    assert_eq!(live.set_input(&handle(), InputCode(0x0F)), Ok(WriteOutcome::Accepted));
    assert_eq!(asked.borrow().iter().filter(|a| a.contains("setvcp")).count(), 1);
    assert_eq!(
        asked.borrow().last().map(String::as_str),
        Some("--sn ASFPA9A001108 --model 27P2Q setvcp 60 0x0f")
    );
    assert!(live
        .health()
        .findings
        .iter()
        .any(|f| f.message.contains("1 of 2")));
    assert_eq!(count_shut(&vec![true, false, false]), (3, 2));
}

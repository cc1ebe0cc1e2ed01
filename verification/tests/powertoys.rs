use std::cell::RefCell;

use desktop_switcher::backend::{BackendError, MonitorBackend};
use desktop_switcher::console::PowerDisplayConsole;
use desktop_switcher::edid::EdidInfo;
use desktop_switcher::mccs;
use desktop_switcher::powertoys::{
    classify_failure, is_definite_write_failure, transport_from_method, PowerDisplayBackend,
    WRITE_ATTEMPTS, WRITE_RETRY_DELAY_MS,
};
use desktop_switcher::powertoys_live::LivePowerDisplay;
use desktop_switcher::powertoys_parse::{parse_capabilities, parse_get, parse_list, ParseError};
use desktop_switcher::proc::{CommandRun, ProcError};
use desktop_switcher::types::{InputCode, InputReading, MonitorHandle, WriteOutcome};

const LIST: &str = "\
# | Name    | Method | Monitor ID
1 |         | WMI    | \\\\?\\DISPLAY#BOE0CBF#4&34b9e9a7&0&UID8388688
2 | 27P2DG5 | DDC/CI | \\\\?\\DISPLAY#AOC2702#5&23e00778&0&UID4613
3 | 27P2DG5 | DDC/CI | \\\\?\\DISPLAY#AOC2702#5&23e00778&0&UID4612
";

const CAPS: &str = "\
Monitor 2 (27P2DG5) via DDC/CI
  Model: 27P2Q
  MCCS: 2.2
  VCP codes:
    0x60 Input Source: VGA-1 (0x01), DVI-1 (0x03), HDMI-1 (0x11), DisplayPort-1 (0x0F)
  Raw: (vcp(02 04 05 08 10 12 60(01 03 11 0F ) 62 86(02 05))prot(monitor)type(LCD)mccs_ver(2.2)model(27P2Q))
";

const GET_M2: &str = "\
Monitor 2 (27P2DG5)
  id                 \\\\?\\DISPLAY#AOC2702#5&23e00778&0&UID4613
  protocol           DDC/CI
  input-source       HDMI-1 (0x11)
";

const GET_M3: &str = "\
Monitor 3 (27P2DG5)
  id                 \\\\?\\DISPLAY#AOC2702#5&23e00778&0&UID4612
  protocol           DDC/CI
  input-source       DisplayPort-1 (0x0F)
";

const GET_ALL: &str = "\
Monitor 2 (27P2DG5)
  id                 \\\\?\\DISPLAY#AOC2702#5&23e00778&0&UID4613
  protocol           DDC/CI
  brightness         40
  contrast           50
  color-temperature  6500K (0x05)
  input-source       HDMI-1 (0x11)
  volume             30
";

fn ran(args: &[&str], status: i32, stdout: &str, stderr: &str) -> CommandRun {
    CommandRun {
        program: "cli".into(),
        args: args.iter().map(|a| a.to_string()).collect(),
        status: Some(status),
        stdout: stdout.into(),
        stderr: stderr.into(),
        duration_ms: 0,
    }
}

fn backend() -> PowerDisplayBackend {
    PowerDisplayBackend::new("cli.exe".into())
}

fn handle() -> MonitorHandle {
    MonitorHandle {
        backend_id: "\\\\?\\DISPLAY#AOC2702#5&23e00778&0&UID4613".into(),
        discovery_index: Some(2),
        model: Some("27P2DG5".into()),
        serial: None,
    }
}

const REJECTED: &str = "Error: hardware write failed\n  monitor: Monitor 3 (27P2DG5)\n  \
                        diagnostic: Failed to set VCP 0x60";

#[test]
fn a_missing_configured_tool_path_is_reported_clearly() {
    let err = PowerDisplayBackend::locate(Some("Z:/nope/missing.exe"), false, None, &vec![])
        .unwrap_err();
    assert!(err.to_string().contains("tool_path"), "{err:?}");
}

#[test]
fn unknown_monitor_errors_are_classified_not_lumped_together() {
    let run = ran(&["get"], 1, "", "Error: no monitor found with id NO-SUCH-MONITOR");
    assert!(matches!(
        classify_failure(&run),
        BackendError::MonitorNotFound { .. }
    ));
}

#[test]
fn other_failures_keep_their_stderr_and_exit_code() {
    let run = ran(&["set"], 7, "", "Error: ddc write timed out");
    match classify_failure(&run) {
        BackendError::CommandFailed { status, stderr, .. } => {
            assert_eq!(status, Some(7));
            assert!(stderr.contains("timed out"));
        }
        other => panic!("unexpected classification: {other:?}"),
    }
}

/// Captured from the event log on 2026-09-17: the same switch that worked
/// seconds earlier and seconds later.
#[test]
fn a_rejected_hardware_write_is_recognised_as_safe_to_retry() {
    assert!(is_definite_write_failure(&ran(&["set"], 5, "", REJECTED)));
}

#[test]
fn a_vague_failure_is_not_retried() {
    // Could mean the write landed and the reply was lost, so repeating it
    // could switch a monitor twice.
    let run = ran(&["set"], 1, "", "Error: timed out waiting for the display");
    assert!(!is_definite_write_failure(&run));
}

#[test]
fn transports_map_to_switchability() {
    assert!(transport_from_method("DDC/CI").supports_input_switching());
    assert!(!transport_from_method("WMI").supports_input_switching());
    assert!(!transport_from_method("Something").supports_input_switching());
}

#[test]
fn parses_the_real_list_output() {
    let rows = parse_list(LIST).unwrap();
    assert_eq!(rows.len(), 3);
    // The internal laptop panel: no name, reached over WMI.
    assert_eq!(rows[0].number, 1);
    assert_eq!(rows[0].name, None);
    assert_eq!(rows[0].method, "WMI");
    // The two AOC panels.
    assert_eq!(rows[1].name.as_deref(), Some("27P2DG5"));
    assert_eq!(rows[1].method, "DDC/CI");
    assert!(rows[1].id.contains("UID4613"));
    assert!(rows[2].id.contains("UID4612"));
}

#[test]
fn a_changed_list_header_is_a_hard_error() {
    let altered = LIST.replacen("Monitor ID", "Device Path", 1);
    let err = parse_list(&altered).unwrap_err();
    assert!(matches!(err, ParseError::ListHeader(_)));
    // The message must point at the version, not just say "parse error".
    assert!(err.to_string().contains("0.101"), "{err:?}");
}

#[test]
fn a_truncated_row_is_rejected_rather_than_half_read() {
    let bad = "# | Name | Method | Monitor ID\n2 | 27P2DG5 | DDC/CI\n";
    assert!(matches!(
        parse_list(bad).unwrap_err(),
        ParseError::ListRow { .. }
    ));
}

#[test]
fn a_non_numeric_monitor_number_is_rejected() {
    let bad = "# | Name | Method | Monitor ID\nx | 27P2DG5 | DDC/CI | some-id\n";
    assert!(parse_list(bad).is_err());
}

#[test]
fn empty_output_is_an_error_not_an_empty_monitor_list() {
    assert!(parse_list("").is_err());
}

#[test]
fn parses_the_real_capabilities_output() {
    let caps = parse_capabilities(CAPS).unwrap();
    assert!(caps.feature_present);
    let codes: Vec<u8> = caps.options.iter().map(|(c, _)| c.get()).collect();
    assert_eq!(codes, vec![0x01, 0x03, 0x11, 0x0F]);
    assert_eq!(caps.options[2].1, "HDMI-1");
    assert_eq!(caps.model.as_deref(), Some("27P2Q"));
    assert!(caps.raw_capabilities.unwrap().starts_with("(vcp("));
}

#[test]
fn the_parsed_codes_agree_with_the_raw_mccs_string() {
    // Two independent readings of the same claim; a disagreement would mean
    // one of the two parsers is wrong.
    let caps = parse_capabilities(CAPS).unwrap();
    let raw = caps.raw_capabilities.clone().unwrap();
    let from_raw = mccs::input_source_values(&raw).unwrap().unwrap();
    let from_table: Vec<u8> = caps.options.iter().map(|(c, _)| c.get()).collect();
    assert_eq!(from_raw, from_table);
}

#[test]
fn capabilities_without_a_vcp_section_is_an_error() {
    assert_eq!(
        parse_capabilities("Monitor 2 (X) via DDC/CI\n  Model: X\n").unwrap_err(),
        ParseError::MissingVcpSection
    );
}

#[test]
fn a_monitor_without_feature_0x60_parses_but_reports_absence() {
    let text = "Monitor 2 (X) via DDC/CI\n  VCP codes:\n    0x10 Brightness\n";
    let caps = parse_capabilities(text).unwrap();
    assert!(!caps.feature_present);
    assert!(caps.options.is_empty());
}

#[test]
fn parses_the_real_get_output_for_both_panels() {
    // The two panels are on *different* inputs for the same computer.
    let m2 = parse_get(GET_M2).unwrap();
    assert_eq!(m2.input_source, Some(InputCode(0x11)));
    assert!(m2.id.unwrap().contains("UID4613"));

    let m3 = parse_get(GET_M3).unwrap();
    assert_eq!(m3.input_source, Some(InputCode(0x0F)));
    assert!(m3.id.unwrap().contains("UID4612"));
    assert_eq!(m3.protocol.as_deref(), Some("DDC/CI"));
}

#[test]
fn picks_input_source_out_of_a_full_settings_dump() {
    let all = parse_get(GET_ALL).unwrap();
    assert_eq!(all.input_source, Some(InputCode(0x11)));
}

#[test]
fn a_monitor_with_no_input_source_line_reads_as_none_not_as_failure() {
    let text = "Monitor 1 (Internal)\n  protocol           WMI\n  brightness         40\n";
    let parsed = parse_get(text).unwrap();
    assert_eq!(parsed.input_source, None);
    assert_eq!(parsed.protocol.as_deref(), Some("WMI"));
}

#[test]
fn get_output_without_a_monitor_header_is_rejected() {
    assert!(parse_get("input-source       HDMI-1 (0x11)\n").is_err());
}

#[test]
fn an_unparseable_input_value_is_an_error_not_a_silent_none() {
    let text = "Monitor 2 (X)\n  input-source       something unexpected\n";
    assert!(matches!(
        parse_get(text).unwrap_err(),
        ParseError::BadInputCode(_)
    ));
}

#[test]
fn tolerates_extra_whitespace_and_crlf() {
    let text = "Monitor 2 (27P2DG5)\r\n   protocol      DDC/CI  \r\n   input-source    HDMI-1 (0x11)  \r\n";
    assert_eq!(parse_get(text).unwrap().input_source, Some(InputCode(0x11)));
}

#[test]
fn a_definite_failure_is_repeated_and_a_vague_one_is_not() {
    for (stderr, tries) in [
        (REJECTED, WRITE_ATTEMPTS),
        ("Error: timed out waiting for the display", 1),
    ] {
        let asked: RefCell<usize> = RefCell::new(0);
        let paused: RefCell<Vec<u64>> = RefCell::new(Vec::new());
        let mut console = PowerDisplayConsole::new(
            |_args: &Vec<String>| {
                *asked.borrow_mut() += 1;
                Ok(ran(&["set"], 5, "", stderr))
            },
            |_path: &String| None,
            |ms: u64| paused.borrow_mut().push(ms),
        );
        let outcome = backend().set_input(&handle(), InputCode(0x0F), &mut console);
        assert!(matches!(outcome, Ok(WriteOutcome::Failed { .. })), "{outcome:?}");
        assert_eq!(*asked.borrow(), tries);
        assert_eq!(*paused.borrow(), vec![WRITE_RETRY_DELAY_MS; tries - 1]);
    }
}

#[test]
fn a_write_names_the_monitor_and_the_code() {
    let asked: RefCell<Vec<String>> = RefCell::new(Vec::new());
    let mut console = PowerDisplayConsole::new(
        |args: &Vec<String>| {
            *asked.borrow_mut() = args.clone();
            Ok(ran(&["set"], 0, "", ""))
        },
        |_path: &String| None,
        |_ms: u64| {},
    );
    let outcome = backend().set_input(&handle(), InputCode(0x0F), &mut console);
    assert_eq!(outcome, Ok(WriteOutcome::Accepted));
    let args = asked.borrow();
    assert_eq!(args[0], "set");
    assert!(args.contains(&handle().backend_id));
    assert!(args.iter().any(|a| a.eq_ignore_ascii_case("0x0f")), "{args:?}");
}

#[test]
fn displays_are_listed_with_their_identity() {
    let mut console = PowerDisplayConsole::new(
        |_args: &Vec<String>| Ok(ran(&["list"], 0, LIST, "")),
        |path: &String| {
            if path.contains("UID4613") {
                Some(EdidInfo {
                    manufacturer: Some("AOC".into()),
                    serial_text: Some("ASFPA9A001108".into()),
                    ..Default::default()
                })
            } else {
                None
            }
        },
        |_ms: u64| {},
    );
    let found = backend().discover(&mut console).unwrap();
    assert_eq!(found.len(), 3);
    assert_eq!(found[1].identity.serial.as_deref(), Some("ASFPA9A001108"));
    assert_eq!(found[2].identity.serial, None);
    assert!(!found[0].identity.transport.supports_input_switching());
}

#[test]
fn a_reading_comes_from_the_settings_of_the_monitor() {
    let read = |stdout: &'static str, status: i32| {
        let mut console = PowerDisplayConsole::new(
            |_args: &Vec<String>| Ok(ran(&["get"], status, stdout, "")),
            |_path: &String| None,
            |_ms: u64| {},
        );
        backend().read_input(&handle(), &mut console)
    };
    assert_eq!(read(GET_M2, 0), Ok(InputReading::Value(InputCode(0x11))));
    assert!(read("Monitor 1 (X)\n", 0).unwrap().value().is_none());
    assert!(read("nothing", 0).is_err());
}

#[test]
fn a_tool_that_cannot_be_started_is_an_error() {
    let gone = backend().version(&mut PowerDisplayConsole::new(
        |_args: &Vec<String>| -> Result<CommandRun, ProcError> {
            Err(ProcError::NotFound("cli.exe".into()))
        },
        |_path: &String| None,
        |_ms: u64| {},
    ));
    assert!(gone.is_err());
    let health = backend().health(gone, Ok(Vec::new()));
    assert!(!health.is_usable());
    assert_eq!(health.backend, "powertoys-cli");
}

#[test]
fn the_tool_is_looked_for_under_each_base_directory() {
    let dirs = PowerDisplayBackend::candidate_dirs(&vec!["base".to_string()]);
    assert_eq!(dirs, vec!["base/PowerToys/WinUI3Apps", "base/PowerToys"]);
    let err = PowerDisplayBackend::locate(None, false, None, &dirs).unwrap_err();
    assert!(err.to_string().contains("base/PowerToys"), "{err:?}");
}

#[test]
fn every_parse_error_is_told() {
    for e in [
        ParseError::ListHeader("h".into()),
        ParseError::ListRow { row: "r".into(), detail: "d".into() },
        ParseError::MissingMonitorHeader("m".into()),
        ParseError::BadInputCode("b".into()),
        ParseError::MissingVcpSection,
    ] {
        assert!(!e.to_string().is_empty());
    }
    assert!(matches!(parse_get(""), Err(ParseError::MissingMonitorHeader(_))));
}

#[test]
fn the_live_backend_runs_the_cli() {
    let asked: RefCell<Vec<String>> = RefCell::new(Vec::new());
    let console = PowerDisplayConsole::new(
        |args: &Vec<String>| {
            asked.borrow_mut().push(args[0].clone());
            Ok(match args[0].as_str() {
                "list" => ran(&["list"], 0, LIST, ""),
                "get" => ran(&["get"], 0, GET_M2, ""),
                "capabilities" => ran(&["capabilities"], 0, CAPS, ""),
                "set" => ran(&["set"], 5, "", REJECTED),
                _ => ran(&[], 0, "0.101.2362.0\n", ""),
            })
        },
        |_path: &String| None,
        |_ms: u64| {},
    );
    let mut live = LivePowerDisplay::new(backend(), console);
    assert_eq!(live.name(), "powertoys-cli");
    assert_eq!(live.health().tool_version.as_deref(), Some("0.101.2362.0"));
    assert_eq!(live.discover().unwrap().len(), 3);
    assert_eq!(live.read_input(&handle()), Ok(InputReading::Value(InputCode(0x11))));
    assert_eq!(live.input_capabilities(&handle()).unwrap().options.len(), 4);
    assert!(!asked.borrow().contains(&"set".to_string()), "what is only read writes nothing");
    asked.borrow_mut().clear();
    assert!(live.set_input(&handle(), InputCode(0x0F)).unwrap().is_failure());
    assert_eq!(*asked.borrow(), vec!["set"; WRITE_ATTEMPTS]);
}

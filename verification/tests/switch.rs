use std::cell::RefCell;

use desktop_switcher::backend::{BackendError, MonitorBackend};
use desktop_switcher::clock::Clock;
use desktop_switcher::config::{BackendKind, Config, MonitorConfig, MonitorInput};
use desktop_switcher::eventlog::EventLog;
use desktop_switcher::fake::{FakeBackend, FakeBehavior, FakeMonitor};
use desktop_switcher::switch::{
    after_write, apply_many, apply_one, best_effort, judged, lock_is_stale, plan_set_input,
    toggle_target, ApplyStatus, ExecOptions, GuardError, LastRequest, PlanError, StepReport,
};
use desktop_switcher::types::{InputCode, InputReading, WriteOutcome};

const HDMI: u8 = 0x11;
const DP: u8 = 0x0F;

fn monitor_cfg(key: &str, backend_id: &str) -> MonitorConfig {
    MonitorConfig {
        key: key.into(),
        label: format!("AOC 27P2DG5 ({key})"),
        backend_id: backend_id.into(),
        serial: Some(key.into()),
        model: Some("27P2DG5".into()),
        inputs: vec![
            MonitorInput::reported(InputCode(HDMI), None),
            MonitorInput::reported(InputCode(DP), None),
        ],
    }
}

fn config() -> Config {
    let mut c = Config::new("test-host", BackendKind::Fake);
    c.monitors.push(monitor_cfg("SN-L", "port-a"));
    c.monitors.push(monitor_cfg("SN-R", "port-b"));
    c
}

fn backend(left: u8, right: u8) -> FakeBackend {
    FakeBackend::new(vec![
        FakeMonitor::new("port-a", Some("SN-L"), left),
        FakeMonitor::new("port-b", Some("SN-R"), right),
        FakeMonitor::internal_panel("panel"),
    ])
}

fn fast() -> ExecOptions {
    ExecOptions {
        settle_ms: 0,
        ..Default::default()
    }
}

fn quiet() -> ExecOptions {
    ExecOptions {
        skip_reported: true,
        ..fast()
    }
}

fn set_with(
    cfg: &Config,
    be: &mut FakeBackend,
    monitor: &str,
    code: u8,
    opts: ExecOptions,
) -> StepReport {
    let detected = be.discover().unwrap();
    let plan = plan_set_input(cfg, &detected, monitor, InputCode(code)).unwrap();
    apply_one(&plan, be, opts, &mut EventLog::disabled(), &mut Clock::new(|_ms: u64| {}))
}

fn set(cfg: &Config, be: &mut FakeBackend, monitor: &str, code: u8) -> StepReport {
    set_with(cfg, be, monitor, code, fast())
}

#[test]
fn sets_the_named_monitor_and_only_that_one() {
    let cfg = config();
    let mut be = backend(HDMI, HDMI);
    let report = set(&cfg, &mut be, "SN-L", DP);

    assert_eq!(report.outcome, WriteOutcome::StoredByMonitor(InputCode(DP)));
    assert_eq!(be.writes(), vec![("port-a".to_string(), InputCode(DP))]);
    assert_eq!(be.current_input("port-b"), Some(InputCode(HDMI)));
}

#[test]
fn a_monitor_can_be_named_by_key_or_label() {
    let cfg = config();
    let mut be = backend(HDMI, HDMI);
    let detected = be.discover().unwrap();
    assert!(plan_set_input(&cfg, &detected, "SN-L", InputCode(DP)).is_ok());
    assert!(plan_set_input(&cfg, &detected, "AOC 27P2DG5 (SN-L)", InputCode(DP)).is_ok());
}

#[test]
fn setting_the_input_it_is_already_on_writes_nothing() {
    let cfg = config();
    let mut be = backend(HDMI, HDMI);
    let report = set_with(&cfg, &mut be, "SN-L", HDMI, quiet());
    assert!(be.writes().is_empty(), "no write should be issued");
    assert!(report.skipped_already_correct);
}

/// Unless asked to stay quiet, the write goes out: a panel can report an
/// input that it is not showing.
#[test]
fn the_write_goes_out_whatever_the_monitor_reports() {
    let cfg = config();
    let mut be = backend(HDMI, HDMI);
    let report = set(&cfg, &mut be, "SN-L", HDMI);
    assert_eq!(be.writes(), vec![("port-a".to_string(), InputCode(HDMI))]);
    assert!(!report.skipped_already_correct);
}

#[test]
fn repeating_a_set_is_idempotent() {
    let cfg = config();
    let mut be = backend(HDMI, HDMI);
    set_with(&cfg, &mut be, "SN-L", DP, quiet());
    let first = be.writes().len();
    set_with(&cfg, &mut be, "SN-L", DP, quiet());
    assert_eq!(be.writes().len(), first, "second run must be a no-op");
    assert_eq!(be.current_input("port-a"), Some(InputCode(DP)));
}

#[test]
fn losing_contact_after_the_write_is_not_a_failure() {
    let cfg = config();
    let mut be = FakeBackend::new(vec![FakeMonitor::new("port-a", Some("SN-L"), HDMI)
        .with_behavior(FakeBehavior::SilentAfterWrite)]);
    let report = set(&cfg, &mut be, "SN-L", DP);
    assert_eq!(report.outcome, WriteOutcome::Accepted);
    assert!(report.outcome.to_string().contains("unconfirmed"));
}

#[test]
fn a_write_that_is_silently_ignored_is_not_called_success() {
    let cfg = config();
    let mut be = FakeBackend::new(vec![FakeMonitor::new("port-a", Some("SN-L"), HDMI)
        .with_behavior(FakeBehavior::IgnoresWrites)]);
    let report = set(&cfg, &mut be, "SN-L", DP);
    assert!(matches!(report.outcome, WriteOutcome::Unknown { .. }));
}

#[test]
fn a_failing_write_is_reported_as_failed() {
    let cfg = config();
    let mut be = FakeBackend::new(vec![FakeMonitor::new("port-a", Some("SN-L"), HDMI)
        .with_behavior(FakeBehavior::WriteFails("i2c write failed".into()))]);
    let report = set(&cfg, &mut be, "SN-L", DP);
    assert!(report.outcome.is_failure());
}

#[test]
fn one_monitor_failing_leaves_the_others_done() {
    let cfg = config();
    let mut be = FakeBackend::new(vec![
        FakeMonitor::new("port-a", Some("SN-L"), HDMI),
        FakeMonitor::new("port-b", Some("SN-R"), HDMI)
            .with_behavior(FakeBehavior::WriteFails("nope".into())),
    ]);
    let detected = be.discover().unwrap();
    let plans = vec![
        plan_set_input(&cfg, &detected, "SN-L", InputCode(DP)).unwrap(),
        plan_set_input(&cfg, &detected, "SN-R", InputCode(DP)).unwrap(),
    ];
    let report = apply_many(&plans, &mut be, fast(), &mut EventLog::disabled(), &mut Clock::new(|_ms: u64| {}));

    assert_eq!(report.status(), ApplyStatus::Partial);
    assert_eq!(report.exit_code(), 1);
    // The one that worked stays switched: no rollback is attempted.
    assert_eq!(be.current_input("port-a"), Some(InputCode(DP)));
}

#[test]
fn a_disconnected_monitor_is_refused_before_any_write() {
    let cfg = config();
    let mut be = backend(HDMI, HDMI);
    be.detach("port-b");
    let detected = be.discover().unwrap();
    let err = plan_set_input(&cfg, &detected, "SN-R", InputCode(DP)).unwrap_err();
    assert!(matches!(err, PlanError::Binding { .. }));
    assert!(be.writes().is_empty(), "nothing may be written on refusal");
}

#[test]
fn switch_an_unknown_monitor_lists_the_configured_ones() {
    let cfg = config();
    let mut be = backend(HDMI, HDMI);
    let detected = be.discover().unwrap();
    let err = plan_set_input(&cfg, &detected, "nope", InputCode(DP)).unwrap_err();
    assert!(err.to_string().contains("SN-L"), "{err:?}");
}

#[test]
fn an_unadvertised_code_is_flagged_but_not_refused() {
    // Capability strings are wrong in both directions, so this is the user's
    // call to make, not the tool's.
    let cfg = config();
    let mut be = backend(HDMI, HDMI);
    let detected = be.discover().unwrap();
    let plan = plan_set_input(&cfg, &detected, "SN-L", InputCode(0x03)).unwrap();
    assert!(!plan.advertised);
}

#[test]
fn dry_run_touches_nothing() {
    let cfg = config();
    let mut be = backend(HDMI, HDMI);
    let detected = be.discover().unwrap();
    let plan = plan_set_input(&cfg, &detected, "SN-L", InputCode(DP)).unwrap();
    let opts = ExecOptions {
        settle_ms: 0,
        dry_run: true,
        ..Default::default()
    };
    apply_one(&plan, &mut be, opts, &mut EventLog::disabled(), &mut Clock::new(|_ms: u64| {}));
    assert!(be.writes().is_empty());
}

#[test]
fn with_no_monitors_configured_there_is_nothing_to_set() {
    let cfg = Config::new("host", BackendKind::Fake);
    let err = plan_set_input(&cfg, &[], "any", InputCode(DP)).unwrap_err();
    assert_eq!(err, PlanError::NoMonitorsConfigured);
    assert!(!err.to_string().is_empty());
}

#[test]
fn a_recent_repeat_is_a_duplicate_and_nothing_else_is() {
    let last = LastRequest::made_at("Desk setup", 1_000);
    assert_eq!(last.request.as_deref(), Some("Desk setup"));
    assert!(last.is_duplicate_at("Desk setup", 1_500, 60_000));
    assert!(!last.is_duplicate_at("Something else", 1_500, 60_000));
    assert!(!last.is_duplicate_at("Desk setup", 1_500, 0));
    assert!(!last.is_duplicate_at("Desk setup", 70_000, 60_000));
    assert!(!LastRequest::default().is_duplicate_at("Desk setup", 1_500, 60_000));
}

#[test]
fn a_request_just_recorded_is_a_duplicate_of_itself() {
    let loaded = LastRequest::record("Desk setup");
    assert!(loaded.is_duplicate_of("Desk setup", 60_000));
    assert!(!loaded.is_duplicate_of("Something else", 60_000));
    assert!(!loaded.is_duplicate_of("Desk setup", 0));
}

#[test]
fn a_lock_is_stale_once_it_is_old_enough() {
    assert!(lock_is_stale(None, 60_000));
    assert!(lock_is_stale(Some(1), 0));
    assert!(!lock_is_stale(Some(0), 0));
    assert!(!lock_is_stale(Some(5), 60_000));
    assert!(lock_is_stale(Some(60_001), 60_000));
}

#[test]
fn a_lock_that_exists_means_someone_is_switching() {
    let busy = GuardError::from_creation("p/switch.lock", true, "exists");
    assert_eq!(busy, GuardError::Busy { path: "p/switch.lock".into() });
    let io = GuardError::from_creation("p/switch.lock", false, "denied");
    assert!(io.to_string().contains("denied"));
}

#[test]
fn a_toggle_goes_back_and_forth() {
    let between = [InputCode(HDMI), InputCode(DP)];
    assert_eq!(toggle_target(Some(InputCode(HDMI)), between), InputCode(DP));
    assert_eq!(toggle_target(Some(InputCode(DP)), between), InputCode(HDMI));
    assert_eq!(toggle_target(None, between), InputCode(HDMI));
}

#[test]
fn a_read_back_is_held_against_what_was_asked() {
    assert_eq!(
        judged(&InputReading::Value(InputCode(DP)), InputCode(DP)),
        WriteOutcome::StoredByMonitor(InputCode(DP))
    );
    assert!(matches!(
        judged(&InputReading::Value(InputCode(HDMI)), InputCode(DP)),
        WriteOutcome::Unknown { .. }
    ));
    let silent: Result<InputReading, BackendError> =
        Err(BackendError::Io("gone".into()));
    assert!(best_effort(silent.clone()).value().is_none());
    assert_eq!(judged(&after_write(silent), InputCode(DP)), WriteOutcome::Accepted);
}

#[test]
fn each_step_is_logged() {
    let cfg = config();
    let mut be = backend(HDMI, HDMI);
    let detected = be.discover().unwrap();
    let plan = plan_set_input(&cfg, &detected, "SN-L", InputCode(DP)).unwrap();
    let mut log = EventLog::at("events.log".into());
    apply_one(&plan, &mut be, fast(), &mut log, &mut Clock::new(|_ms: u64| {}));
    let lines = log.take_pending();
    assert_eq!(lines.len(), 1);
    assert!(lines[0].contains("0x0F"), "{}", lines[0]);
    assert!(log.take_pending().is_empty());
}

#[test]
fn a_monitor_can_claim_another_input_than_it_shows() {
    let mut be = FakeBackend::new(vec![
        FakeMonitor::new("port-a", Some("SN-L"), HDMI).reporting_input(InputCode(DP)),
        FakeMonitor::new("port-b", Some("SN-R"), DP),
    ]);
    let report = set(&config(), &mut be, "SN-L", DP);
    assert_eq!(report.before, Some(InputReading::Value(InputCode(DP))));
    // The claim matches, and the write goes out all the same.
    assert_eq!(be.writes(), vec![("port-a".to_string(), InputCode(DP))]);
    assert_eq!(be.current_input("port-a"), Some(InputCode(DP)));
}

#[test]
fn buttons_on_the_monitor_change_what_it_shows() {
    let mut be = backend(HDMI, DP);
    be.set_physically("port-a", DP);
    be.set_physically("nowhere", HDMI);
    assert_eq!(be.current_input("port-a"), Some(InputCode(DP)));
    assert_eq!(be.current_input("port-b"), Some(InputCode(DP)));
    assert!(be.writes().is_empty());
    let mut broken = FakeBackend::failing_discovery(BackendError::Io("no bus".into()));
    assert_eq!(broken.discover().unwrap_err(), BackendError::Io("no bus".into()));
}

#[test]
fn a_monitor_advertises_what_it_lists() {
    let mut be = backend(HDMI, DP);
    let handle = be.discover().unwrap()[0].handle();
    let caps = be.input_capabilities(&handle).unwrap();
    assert!(caps.advertises(InputCode(HDMI)));
    assert!(!caps.advertises(InputCode(0x1B)));
}

#[test]
fn a_monitor_is_given_time_before_it_is_read_back() {
    let cfg = config();
    let waits: RefCell<Vec<u64>> = RefCell::new(Vec::new());
    let mut clock = Clock::new(|ms: u64| waits.borrow_mut().push(ms));
    let mut be = backend(HDMI, HDMI);
    let detected = be.discover().unwrap();
    let plans = vec![
        plan_set_input(&cfg, &detected, "SN-L", InputCode(DP)).unwrap(),
        plan_set_input(&cfg, &detected, "SN-R", InputCode(DP)).unwrap(),
    ];
    let mut opts = fast();
    opts.settle_ms = 30;
    apply_many(&plans, &mut be, opts, &mut EventLog::disabled(), &mut clock);
    assert_eq!(*waits.borrow(), vec![30, 30]);
    // Nothing is waited for that is not read back.
    opts.dry_run = true;
    apply_one(&plans[0], &mut be, opts, &mut EventLog::disabled(), &mut clock);
    opts.dry_run = false;
    opts.settle_ms = 0;
    apply_one(&plans[0], &mut be, opts, &mut EventLog::disabled(), &mut clock);
    opts.settle_ms = 30;
    opts.read_back = false;
    apply_one(&plans[0], &mut be, opts, &mut EventLog::disabled(), &mut clock);
    assert_eq!(waits.borrow().len(), 2);
}

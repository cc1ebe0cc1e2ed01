use desktop_switcher::eventlog::{
    capped_millis, date_string, last_lines, line_at, now_rfc3339, now_unix_ms, time_or_unknown,
    today, EventLog,
};

#[test]
fn disabled_log_writes_nothing_and_does_not_panic() {
    let mut log = EventLog::disabled();
    log.append("switch.begin", &[("destination", "ubuntu".into())]);
    assert!(log.take_pending().is_empty());
}

#[test]
fn timestamps_look_like_rfc3339() {
    let t = now_rfc3339();
    assert!(t.contains('T') && t.ends_with('Z'), "{t}");
    assert_eq!(today().len(), 10);
}

#[test]
fn events_are_kept_in_order_and_values_with_spaces_are_quoted() {
    let mut log = EventLog::in_dir("state");
    assert!(log.path().ends_with("events.log"));
    assert!(log.path().starts_with("state"));
    log.append("switch.begin", &[("destination", "ubuntu".into())]);
    log.append(
        "switch.step",
        &[("monitor", "left".into()), ("detail", "a b".into())],
    );
    let lines = log.take_pending();
    assert_eq!(lines.len(), 2);
    assert!(lines[0].contains("switch.begin destination=ubuntu"));
    // Values with spaces are quoted so the log stays parseable.
    assert!(lines[1].contains("detail=\"a b\""), "{}", lines[1]);
}

#[test]
fn a_line_is_its_time_its_kind_and_its_fields() {
    assert_eq!(
        line_at("T0", "set", &[("a", "1".into()), ("b", "x\"y".into()), ("c", "".into())]),
        "T0 set a=1 b=\"x\\\"y\" c=\"\"\n"
    );
}

#[test]
fn the_tail_of_a_log_is_its_last_lines() {
    assert_eq!(last_lines("a\nb\nc\n", 2), vec!["b", "c"]);
    assert_eq!(last_lines("a\n", 10), vec!["a"]);
    assert!(last_lines("", 5).is_empty());
}

#[test]
fn dates_are_written_in_full() {
    assert_eq!(date_string(2026, 9, 7), "2026-09-07");
    assert_eq!(date_string(33, 12, 31), "0033-12-31");
}

#[test]
fn time_is_counted_in_milliseconds() {
    assert_eq!(capped_millis(Some(7)), 7);
    assert_eq!(capped_millis(Some(u128::MAX)), u64::MAX);
    assert_eq!(capped_millis(None), 0);
    // After the year 2020.
    assert!(now_unix_ms() > 1_577_836_800_000);
}

#[test]
fn a_time_that_cannot_be_told_is_unknown() {
    assert_eq!(time_or_unknown(None), "unknown-time");
    assert_eq!(time_or_unknown(Some("t".into())), "t");
}

use desktop_switcher::proc::{
    completed, executable_names, find_executable, launch_error, normalise_newlines, seconds,
    wait_step, CommandRun, ProcError, Wait,
};

#[test]
fn display_command_quotes_but_never_executes() {
    let run = CommandRun {
        program: "ddcutil".into(),
        args: vec!["--sn".into(), "A B; rm -rf /".into()],
        status: Some(0),
        stdout: String::new(),
        stderr: String::new(),
        duration_ms: 0,
    };
    assert_eq!(run.display_command(), "ddcutil --sn \"A B; rm -rf /\"");
}

#[test]
fn a_missing_program_is_told_from_one_that_cannot_start() {
    assert_eq!(
        launch_error("definitely-not-here", true, "os"),
        ProcError::NotFound("definitely-not-here".into())
    );
    let e = launch_error("x", false, "denied");
    assert!(e.to_string().contains("denied"));
}

#[test]
fn a_child_is_waited_for_until_its_time_is_up() {
    assert_eq!(wait_step(true, 10, 400), Wait::Ended);
    assert!(matches!(wait_step(false, 10, 400), Wait::Sleep(_)));
    assert_eq!(wait_step(false, 400, 400), Wait::Kill);
    assert_eq!(seconds(400), "0.4");
    assert_eq!(seconds(20_000), "20");
}

#[test]
fn a_completed_run_keeps_its_exit_code() {
    let args = vec!["a".to_string()];
    let done = completed("cmd", &args, Some(Some(3)), "out\n", "err\n", 7, 400).unwrap();
    assert_eq!(done.status, Some(3));
    assert!(!done.success());
    assert_eq!(done.stdout, "out\n");
    assert_eq!(done.stderr, "err\n");
    assert!(matches!(
        completed("cmd", &args, None, "", "", 401, 400),
        Err(ProcError::Timeout { .. })
    ));
}

#[test]
fn line_ends_are_made_plain() {
    assert_eq!(normalise_newlines("a\r\nb\rc\n"), "a\nb\rc\n");
}

#[test]
fn executables_have_an_extension_on_windows() {
    assert!(executable_names("tool", true).iter().any(|n| n == "tool.exe"));
    assert_eq!(executable_names("tool", false), vec!["tool"]);
}

#[test]
fn extra_directories_are_searched_before_the_path() {
    let extra = vec!["/extra".to_string()];
    let path = vec!["/bin".to_string(), "/usr/bin".to_string()];
    let found = find_executable("tool", false, &extra, &path, &|p: &str| {
        p == "/usr/bin/tool" || p == "/bin/tool"
    });
    assert_eq!(found.as_deref(), Some("/bin/tool"));
    let found = find_executable("tool", false, &extra, &path, &|p: &str| p.ends_with("/tool"));
    assert_eq!(found.as_deref(), Some("/extra/tool"));
    assert_eq!(find_executable("tool", false, &extra, &path, &|_p: &str| false), None);
    // A name may be more than one step, or a path of its own.
    let found = find_executable("sub/tool", false, &extra, &path, &|p: &str| p == "/bin/sub/tool");
    assert_eq!(found.as_deref(), Some("/bin/sub/tool"));
    let found = find_executable("/opt/tool", false, &extra, &path, &|p: &str| p == "/opt/tool");
    assert_eq!(found.as_deref(), Some("/opt/tool"));
}

use desktop_switcher::notice::{
    cannot_start, clip, fill, for_run, hotkeys_unavailable, BODY_MAX, TITLE_MAX,
};

/// An action that was refused on a desktop that Windows briefly showed as
/// mirrored.
const MIRRORED: &str = r"Laptop
------

[1/2] set ASFPA9A001108 to 0x11
  aoc-center                 0x11 -> issued, visual state unconfirmed

[2/2] set ASFPA9A001109 to 0x11
  aoc-left                   0x11 -> failed: `\\?\DISPLAY#AOC2702#4&34b9e9a7&0&UID4165` is mirrored with 1 other display(s). Windows returns mirrored monitors in an order nothing ties to a particular display, so a write could land on the wrong one.

  FAILED: nothing was switched

If a screen goes blank or stops responding:
  - Use the monitor's own buttons: open its on-screen menu and pick the input

Stopped: step 2 of 2 failed, so the rest were not run.";

/// A monitor that is not attached.
const REFUSED: &str = "Refusing to change the input.

cannot identify `ASFPA9A001109`: `ASFPA9A001109` is not attached: nothing present matches serial ASFPA9A001109

If a screen goes blank or stops responding:
  - Use the monitor's own buttons";

#[test]
fn success_says_nothing() {
    assert_eq!(for_run("Laptop", Some(0), "anything"), None);
}

#[test]
fn a_failed_step_names_the_monitor_and_the_reason() {
    let n = for_run("Laptop", Some(2), MIRRORED).unwrap();
    assert_eq!(n.title, "Laptop: did not switch");
    assert!(n.body.starts_with("aoc-left: `"), "{}", n.body);
    assert!(n.body.contains("is mirrored"), "{}", n.body);
}

#[test]
fn a_refusal_gives_its_reason_not_the_word_refusing() {
    let n = for_run("aoc-left: Laptop", Some(2), REFUSED).unwrap();
    assert!(n.body.starts_with("cannot identify"), "{}", n.body);
}

#[test]
fn a_partial_result_is_called_partial() {
    let n = for_run("Workstation", Some(1), MIRRORED).unwrap();
    assert_eq!(n.title, "Workstation: only partly done");
}

#[test]
fn a_cli_error_line_is_used_without_its_prefix() {
    let n = for_run("X", Some(2), "error: loading configuration: bad TOML").unwrap();
    assert_eq!(n.body, "loading configuration: bad TOML");
}

#[test]
fn empty_output_still_says_something() {
    let n = for_run("X", None, "").unwrap();
    assert_eq!(n.title, "X: stopped unexpectedly");
    assert!(!n.body.is_empty());
}

#[test]
fn long_text_fits_what_windows_allows() {
    let n = for_run(&"a".repeat(200), Some(2), &"b".repeat(1000)).unwrap();
    assert!(n.title.chars().count() <= TITLE_MAX);
    assert!(n.body.chars().count() <= BODY_MAX);
    assert!(n.body.ends_with('…'));
}

#[test]
fn unavailable_hotkeys_are_named() {
    let one = hotkeys_unavailable(&["F24 for “Toggle center” is taken".into()]);
    assert_eq!(one.title, "A hotkey is not available");
    assert!(one.body.contains("F24"));
    let two = hotkeys_unavailable(&["a".into(), "b".into()]);
    assert_eq!(two.title, "2 hotkeys are not available");
    assert_eq!(two.body, "a; b");
}

#[test]
fn clipped_text_ends_in_an_ellipsis() {
    assert_eq!(clip("abcdef", 4), "abc…");
    assert_eq!(clip("abcd", 4), "abcd");
}

#[test]
fn a_program_that_cannot_start_is_told() {
    let n = cannot_start("Laptop", "no such file");
    assert!(n.title.contains("Laptop"), "{}", n.title);
    assert!(n.body.contains("no such file"), "{}", n.body);
}

#[test]
fn a_buffer_is_filled_up_to_its_terminator() {
    assert_eq!(fill(&[1, 2, 3], 5), vec![1, 2, 3, 0]);
    assert_eq!(fill(&[1, 2, 3], 3), vec![1, 2, 0]);
}

use desktop_switcher::arrange::{
    address_of, change_operation, check, check_change, disp_change_reason, enumerate, find_source,
    has_landed, has_mode, is_protected, is_swept, make_primary, may_detach, misplaced_warning,
    missing_windows, no_source_mode, nowhere_to_sweep, path_to, path_to_change, primary_decision,
    query_step, refuse_protected, report_swept, same_display, swept_position, to_display, until_nul, wanted_window,
    wide_to_string, PathFacts, QueryStep, RawDisplay, SourceMode, WindowFacts, INSUFFICIENT_BUFFER,
};
use desktop_switcher::config::{BackendKind, Config};
use desktop_switcher::desktop::{
    DesktopDisplay, DesktopError, MovedWindow, Rect, RestoreReport, SavedDisplayMode, SweepReport,
};
use desktop_switcher::layers::{
    already_attached, already_primary, begin_release, begin_restore, claimed, detach_failed,
    display_for, display_name, displays, end_restore, no_layout, nothing_on, now_primary,
    protected_paths, released, require_experimental, restored, role_returned, saved_layout, swept, target_monitor,
    ReleaseStart, ReleasedState, RestoreStart, SweptState,
};
use desktop_switcher::page::{Line, Page};
use desktop_switcher::types::{DetectedMonitor, MonitorIdentity, Transport};
use desktop_switcher::windows_live::topology_from;

fn rect(left: i32, top: i32, w: i32, h: i32) -> Rect {
    Rect { left, top, right: left + w, bottom: top + h }
}

fn display(n: u32, r: Rect, primary: bool) -> DesktopDisplay {
    DesktopDisplay {
        gdi_name: format!("\\\\.\\DISPLAY{n}"),
        device_path: format!("path-{n}"),
        friendly_name: Some(format!("Panel {n}")),
        rect: r,
        is_primary: primary,
        is_attached: true,
        is_internal: false,
    }
}

fn text(page: &Page) -> String {
    page.lines
        .iter()
        .map(|l| match l {
            Line::Out(t) | Line::Aside(t) => t.clone(),
        })
        .collect::<Vec<String>>()
        .join("\n")
}

fn mode(n: u32) -> SavedDisplayMode {
    SavedDisplayMode {
        width: 1920 + n,
        height: 1080,
        pos_x: -5,
        pos_y: 7,
        refresh_hz: 60,
        bits_per_pixel: 32,
    }
}

fn window(title: &str) -> MovedWindow {
    MovedWindow { title: title.into(), from: rect(1, 2, 30, 40), was_maximized: false }
}

#[test]
fn a_selector_finds_one_display() {
    let all = [display(1, rect(0, 0, 10, 10), true), display(2, rect(10, 0, 10, 10), false)];
    assert_eq!(display_for("windows", &all, "path-2").unwrap().gdi_name, "\\\\.\\DISPLAY2");
    let e = display_for("windows", &all, "path-9").unwrap_err();
    assert!(e.contains("path-9"), "{e}");
}

#[test]
fn experimental_commands_ask_for_the_flag() {
    assert!(require_experimental(true, "release").is_ok());
    let e = require_experimental(false, "release").unwrap_err();
    assert!(e.contains("--experimental") && e.contains("release"), "{e}");
}

#[test]
fn a_target_is_a_configured_monitor() {
    assert!(target_monitor(None, Some("x")).is_err());
    let c = Config::new("h", BackendKind::Fake);
    assert!(target_monitor(Some(&c), None).is_err());
}

#[test]
fn only_switchable_panels_are_left_unprotected() {
    let monitor = |id: &str, transport: Transport| DetectedMonitor {
        identity: MonitorIdentity {
            backend_id: id.into(),
            discovery_index: None,
            manufacturer: None,
            model: None,
            serial: None,
            transport,
        },
        raw: String::new(),
    };
    let found = [monitor("panel", Transport::Internal), monitor("aoc", Transport::DdcCi)];
    assert_eq!(protected_paths(&found), vec!["panel"]);
}

#[test]
fn displays_are_listed_with_their_place() {
    let all = [display(1, rect(0, 0, 1920, 1080), true)];
    let told = displays("windows", &all, &ReleasedState::default());
    let t = text(&told.page);
    assert!(t.contains("Panel 1") && t.contains("1920"), "{t}");
    assert_eq!(display_name(&all[0]), "Panel 1");
}

#[test]
fn a_claim_undoes_a_release() {
    let mut state = ReleasedState::default();
    let empty = ReleasedState::default();
    state.remember("path-2", mode(1), true);
    state.remember("path-1", mode(2), false);
    let (key, saved, was_primary) =
        saved_layout(&state, &display(2, rect(0, 0, 1, 1), false), "path-2");
    assert_eq!((key.as_str(), saved, was_primary), ("path-2", mode(1), true));
    assert!(state.forget(&key));
    assert!(!state.forget("path-1"));
    assert_eq!(state, empty);
}

#[test]
fn releasing_the_primary_promotes_another_first() {
    let primary = display(1, rect(0, 0, 10, 10), true);
    let other = display(2, rect(10, 0, 20, 20), false);
    let all = [primary.clone(), other.clone()];
    let ReleaseStart::Promote { to, line } = begin_release(&primary, &all, "main") else {
        panic!("promotes")
    };
    assert_eq!(to, other);
    assert!(line.contains("main") || line.contains("Panel 2"), "{line}");
    assert!(matches!(begin_release(&other, &all, "side"), ReleaseStart::Detach));
    let mut gone = other;
    gone.is_attached = false;
    assert!(matches!(begin_release(&gone, &all, "side"), ReleaseStart::Already(_)));
    assert!(matches!(
        begin_release(&primary, &[primary.clone()], "main"),
        ReleaseStart::Stuck(_)
    ));
}

#[test]
fn what_became_of_a_display_is_told() {
    for line in [
        already_primary("main"),
        now_primary("main"),
        already_attached("main"),
        no_layout("main"),
        nothing_on("main"),
    ] {
        assert!(line.contains("main"), "{line}");
    }
    assert!(text(&released("main")).contains("main"));
    assert!(text(&claimed("main", mode(0))).contains("1920"));
    assert_eq!(
        text(&role_returned("main", &Some(Err("busy".into())))),
        "warning: reattached `main` but could not make it primary again: busy"
    );
    assert_eq!(text(&role_returned("main", &None)), "");
    let failed = detach_failed("no", "main", Some(Err("worse".into())));
    assert!(failed.contains("no") && failed.contains("worse"), "{failed}");
    assert!(detach_failed("no", "main", None).contains("no"));
}

#[test]
fn a_sweep_can_be_undone() {
    let mut state = SweptState::default();
    assert!(matches!(begin_restore(&state, None), RestoreStart::Nothing(_)));
    assert!(state.remember("path-2", vec![window("a"), window("b")]));
    assert_eq!(state.windows("path-2").unwrap().len(), 2);
    let RestoreStart::From(keys) = begin_restore(&state, None) else {
        panic!("something to put back")
    };
    assert_eq!(keys, vec!["path-2"]);
    state.forget("path-2");
    assert_eq!(state, SweptState::default());
}

#[test]
fn a_sweep_names_what_it_moved_and_what_it_did_not() {
    let report = SweepReport { moved: vec![window("Editor")], skipped: vec!["Stuck".into()] };
    let t = text(&swept("main", &report));
    assert!(t.contains("Editor") && t.contains("Stuck"), "{t}");
    let (page, any) = restored(&RestoreReport { restored: vec!["Editor".into()], missing: vec![] });
    assert!(any);
    assert!(text(&page).contains("Editor"));
    assert_eq!(end_restore(true).code, 0);
    assert_eq!(end_restore(false).code, 1);
    let RestoreStart::Nothing(line) = begin_restore(&SweptState::default(), None) else {
        panic!("nothing")
    };
    assert!(line.contains("nothing to put back"), "{line}");
}

// ---------------------------------------------------------------------------
// Arranging the desktop
// ---------------------------------------------------------------------------

fn raw(path: &str, attached: bool) -> RawDisplay {
    RawDisplay {
        device_path: path.into(),
        gdi_name: "\\\\.\\DISPLAY1".into(),
        friendly_name: None,
        is_attached: attached,
        position: (0, 0),
        size: (100, 50),
        is_internal: false,
    }
}

#[test]
fn windows_answers_are_read() {
    assert!(check(0, "QueryDisplayConfig").is_ok());
    let e = check(5, "QueryDisplayConfig").unwrap_err();
    assert!(e.to_string().contains("QueryDisplayConfig"));
    assert_eq!(query_step(0, 3), QueryStep::Done);
    assert_eq!(query_step(INSUFFICIENT_BUFFER, 3), QueryStep::Again);
    assert!(matches!(query_step(INSUFFICIENT_BUFFER, 0), QueryStep::Fail(_)));
    assert!(matches!(query_step(5, 3), QueryStep::Fail(_)));
    assert!(check_change("op", None, 0).is_ok());
    assert!(check_change("op", Some("x"), -1).is_err());
    assert_ne!(disp_change_reason(-1), disp_change_reason(-2));
}

#[test]
fn wide_text_ends_at_the_first_zero() {
    let units: Vec<u16> = "Türk\0junk".encode_utf16().collect();
    assert_eq!(until_nul(&units).len(), 4);
    assert_eq!(wide_to_string(&units), "Türk");
    assert_eq!(wide_to_string(&[0xD800, 0x41]), "\u{FFFD}A");
    assert_eq!(wide_to_string(&[]), "");
    // Two surrogates make one character; one without the other makes none.
    assert_eq!(wide_to_string(&[0xD834, 0xDD1E, 0x6D]), "\u{1D11E}m");
    assert_eq!(wide_to_string(&[0xDBFF, 0xDFFF]), "\u{10FFFF}");
    assert_eq!(wide_to_string(&[0xD800, 0xD800, 0xDC00]), "\u{FFFD}\u{10000}");
    assert_eq!(wide_to_string(&[0xDC00, 0xD800]), "\u{FFFD}\u{FFFD}");
    assert_eq!(wide_to_string(&[0xE000, 0xFFFF]), "\u{E000}\u{FFFF}");
}

#[test]
fn each_display_is_listed_once() {
    let active = vec![raw("a", true)];
    let known = vec![raw("a", false), raw("b", false), raw("b", false), raw("", false)];
    let all = enumerate(&active, &known);
    let paths: Vec<&str> = all.iter().map(|d| d.device_path.as_str()).collect();
    assert_eq!(paths, vec!["a", "b"]);
    assert!(all[0].is_attached);
    assert!(all[0].is_primary());
    assert!(same_display("A", "a"));
}

#[test]
fn a_protected_display_is_the_built_in_one() {
    let d = to_display(&raw("path-1#{guid}", true), &vec!["path-1".to_string()]);
    assert!(d.is_internal);
    assert_eq!(d.rect, rect(0, 0, 100, 50));
    assert!(is_protected(&vec!["path-1".to_string()], &d));
    assert!(may_detach(&vec!["path-1".to_string()], &[d.clone()], &d).is_err());
}

#[test]
fn a_source_mode_is_found_by_adapter_and_id() {
    let m = SourceMode {
        is_source: true,
        id: 4,
        adapter_low: 1,
        adapter_high: 2,
        x: 1920,
        y: 0,
        width: 100,
        height: 50,
    };
    assert_eq!(find_source(&[m], 4, 1, 2), Some(0));
    assert_eq!(find_source(&[m], 4, 1, 3), None);
    let d = RawDisplay::found("p".into(), Some("g".into()), None, Some(m), true, 5);
    assert_eq!((d.position, d.size), ((1920, 0), (100, 50)));
    assert!(!d.is_internal);
}

/// The driver's word for it is enough, with nothing protected.
#[test]
fn the_driver_tells_the_built_in_panel() {
    let none: Vec<String> = vec![];
    for (technology, internal) in [
        (i32::MIN, true),
        (6, true),
        (11, true),
        (13, true),
        (-1, false),
        (0, false),
        (4, false),
        (5, false),
        (10, false),
        (12, false),
    ] {
        let d = RawDisplay::found("p".into(), Some("g".into()), None, None, true, technology);
        assert_eq!(d.is_internal, internal, "{technology}");
        assert_eq!(to_display(&d, &none).is_internal, internal, "{technology}");
    }
    let panel = to_display(&RawDisplay { is_internal: true, ..raw("panel", true) }, &none);
    let other = to_display(&raw("other", true), &none);
    let e = may_detach(&none, &[panel.clone(), other.clone()], &panel).unwrap_err();
    assert!(e.to_string().contains("built-in panel"), "{e:?}");
    assert!(may_detach(&none, &[panel.clone(), other.clone()], &other).is_ok());
    let seen = topology_from(Ok(vec![panel, other])).unwrap();
    assert!(seen[0].internal && !seen[1].internal);
}

#[test]
fn a_protected_display_is_refused_at_once() {
    let d = to_display(&raw("recovery", true), &vec![]);
    let e = refuse_protected(&vec!["recovery".to_string()], &d).unwrap_err();
    assert!(e.to_string().contains("protected recovery display"));
    assert_eq!(refuse_protected(&vec!["another".to_string()], &d), Ok(()));
}

#[test]
fn making_a_display_primary_moves_the_others_along() {
    let at = |x: i32| SourceMode {
        is_source: true,
        id: 0,
        adapter_low: 0,
        adapter_high: 0,
        x,
        y: 0,
        width: 100,
        height: 50,
    };
    let mut modes = vec![at(0), at(100)];
    assert!(make_primary(&mut modes, 1));
    assert_eq!((modes[0].x, modes[1].x), (-100, 0));
}

#[test]
fn paths_are_found_by_device() {
    let path = |active: bool, p: &str| PathFacts { active, device_path: Some(p.into()) };
    let all = [path(true, "a"), path(false, "b")];
    assert_eq!(path_to_change(&all, "b", true), Ok(1));
    assert_eq!(path_to_change(&all, "a", false), Ok(0));
    assert!(path_to_change(&all, "c", true).is_err());
    assert_eq!(path_to(&all, "a"), Ok(0));
    assert_ne!(change_operation("a", true), change_operation("a", false));
    assert!(no_source_mode("a").to_string().contains('a'));
}

#[test]
fn decisions_about_one_display() {
    let d = display(1, rect(0, 0, 10, 10), true);
    assert_eq!(primary_decision(&d), Ok(false));
    let mut other = display(2, rect(10, 0, 10, 10), false);
    assert_eq!(primary_decision(&other), Ok(true));
    other.is_attached = false;
    assert!(primary_decision(&other).is_err());
    assert_eq!(address_of(&d), Ok("path-1"));
    assert!(has_mode(&mode(0)));
    let w = misplaced_warning(&d, &mode(0), &DesktopError::Unsupported);
    assert!(!w.is_empty());
    assert!(nowhere_to_sweep(&d).to_string().contains("DISPLAY1") || !nowhere_to_sweep(&d).to_string().is_empty());
}

#[test]
fn a_swept_window_keeps_its_place_within_the_screen() {
    let source = rect(0, 0, 1000, 1000);
    let target = rect(1000, 0, 1000, 1000);
    let (x, y) = swept_position(&rect(100, 200, 300, 300), &source, &target);
    assert!(target.contains(x, y), "{x},{y}");
    let w = WindowFacts {
        visible: true,
        tool: false,
        title: "Editor".into(),
        bounds: Some(rect(10, 10, 50, 50)),
    };
    assert!(is_swept(&w, &source));
    assert!(!is_swept(&w, &target));
    assert!(has_landed(true, &Some(rect(1200, 0, 50, 50)), &source));
    assert!(!has_landed(true, &Some(rect(10, 10, 50, 50)), &source));
    let mut report = SweepReport::default();
    report_swept(&mut report, "Editor".into(), rect(10, 10, 50, 50), false, true);
    report_swept(&mut report, "Stuck".into(), rect(10, 10, 50, 50), false, false);
    assert_eq!(report.moved.len(), 1);
    assert_eq!(report.skipped, vec!["Stuck"]);
}

#[test]
fn a_window_is_restored_once() {
    let wanted = [window("a"), window("b")];
    assert_eq!(wanted_window(&wanted, &vec![], "b"), Some(1));
    assert_eq!(wanted_window(&wanted, &vec!["b".to_string()], "b"), None);
    assert_eq!(missing_windows(&wanted, &vec!["a".to_string()]), vec!["b"]);
}

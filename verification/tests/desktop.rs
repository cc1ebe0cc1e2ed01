use desktop_switcher::desktop::{
    detach_is_safe, promotion_target, sweep_target, DesktopDisplay, DesktopError, DesktopManager,
    NoopDesktop, Rect,
};

fn display(name: &str, path: &str, rect: Rect, primary: bool) -> DesktopDisplay {
    DesktopDisplay {
        gdi_name: name.into(),
        device_path: path.into(),
        friendly_name: None,
        rect,
        is_primary: primary,
        is_attached: true,
        is_internal: false,
    }
}

fn rect(left: i32, top: i32, w: i32, h: i32) -> Rect {
    Rect {
        left,
        top,
        right: left + w,
        bottom: top + h,
    }
}

#[test]
fn matches_a_backend_id_despite_the_trailing_guid() {
    let d = display(
        "\\\\.\\DISPLAY5",
        "\\\\?\\DISPLAY#AOC2702#5&23e00778&0&UID4613#{e6f07b5f-ee97-4a90-b076-33f57bf4eaa7}",
        rect(0, 0, 1920, 1080),
        true,
    );
    assert!(d.matches_backend_id("\\\\?\\DISPLAY#AOC2702#5&23e00778&0&UID4613"));
    // The sibling panel differs only in the UID, and must not match.
    assert!(!d.matches_backend_id("\\\\?\\DISPLAY#AOC2702#5&23e00778&0&UID4612"));
}

#[test]
fn matching_is_case_insensitive_but_not_loose() {
    let d = display(
        "\\\\.\\DISPLAY5",
        "\\\\?\\display#aoc2702#5&23e00778&0&uid4613",
        rect(0, 0, 1920, 1080),
        true,
    );
    assert!(d.matches_backend_id("\\\\?\\DISPLAY#AOC2702#5&23E00778&0&UID4613"));
    assert!(!d.matches_backend_id(""));
    assert!(!d.matches_backend_id("\\\\?\\DISPLAY#BOE0CBF#4&34b9e9a7&0&UID8388688"));
}

#[test]
fn sweep_prefers_the_primary_display() {
    let leaving = display("\\\\.\\DISPLAY5", "p5", rect(0, 0, 1920, 1080), false);
    let displays = vec![
        leaving.clone(),
        display("\\\\.\\DISPLAY1", "p1", rect(1920, 0, 1707, 1067), true),
        display("\\\\.\\DISPLAY6", "p6", rect(-1920, 0, 1920, 1080), false),
    ];
    let target = sweep_target(&displays, &leaving).unwrap();
    assert_eq!(target.gdi_name, "\\\\.\\DISPLAY1");
}

#[test]
fn sweep_falls_back_to_the_largest_remaining_display() {
    let leaving = display("\\\\.\\DISPLAY5", "p5", rect(0, 0, 1920, 1080), true);
    let displays = vec![
        leaving.clone(),
        display("\\\\.\\DISPLAY1", "p1", rect(1920, 0, 1280, 720), false),
        display("\\\\.\\DISPLAY6", "p6", rect(-1920, 0, 1920, 1080), false),
    ];
    assert_eq!(
        sweep_target(&displays, &leaving).unwrap().gdi_name,
        "\\\\.\\DISPLAY6"
    );
}

#[test]
fn sweep_has_nowhere_to_go_when_it_is_the_only_display() {
    let only = display("\\\\.\\DISPLAY5", "p5", rect(0, 0, 1920, 1080), true);
    assert!(sweep_target(std::slice::from_ref(&only), &only).is_none());
}

#[test]
fn detaching_the_last_display_is_refused() {
    let only = display("\\\\.\\DISPLAY5", "p5", rect(0, 0, 1920, 1080), true);
    let err = detach_is_safe(std::slice::from_ref(&only), &only).unwrap_err();
    assert!(err.contains("no screen at all"), "{err}");
}

#[test]
fn detaching_the_built_in_panel_is_refused() {
    let mut panel = display("\\\\.\\DISPLAY1", "p1", rect(0, 0, 1707, 1067), true);
    panel.is_internal = true;
    let other = display("\\\\.\\DISPLAY5", "p5", rect(1707, 0, 1920, 1080), false);
    let displays = vec![panel.clone(), other];
    let err = detach_is_safe(&displays, &panel).unwrap_err();
    assert!(err.contains("recovery display"), "{err}");
}

#[test]
fn detaching_the_primary_is_allowed_because_another_can_be_promoted() {
    let primary = display("\\\\.\\DISPLAY5", "p5", rect(0, 0, 1920, 1080), true);
    let other = display("\\\\.\\DISPLAY1", "p1", rect(1920, 0, 2560, 1600), false);
    let displays = vec![primary.clone(), other];
    assert!(detach_is_safe(&displays, &primary).is_ok());
    assert_eq!(
        promotion_target(&displays, &primary).unwrap().gdi_name,
        "\\\\.\\DISPLAY1"
    );
}

#[test]
fn nothing_is_promoted_when_the_departing_display_is_not_primary() {
    let leaving = display("\\\\.\\DISPLAY5", "p5", rect(0, 0, 1920, 1080), false);
    let displays = vec![
        leaving.clone(),
        display("\\\\.\\DISPLAY1", "p1", rect(1920, 0, 2560, 1600), true),
    ];
    assert!(promotion_target(&displays, &leaving).is_none());
}

#[test]
fn promotion_picks_the_largest_remaining_display() {
    let primary = display("\\\\.\\DISPLAY5", "p5", rect(0, 0, 1920, 1080), true);
    let displays = vec![
        primary.clone(),
        display("\\\\.\\DISPLAY6", "p6", rect(-1920, 0, 1920, 1080), false),
        display("\\\\.\\DISPLAY1", "p1", rect(1920, 0, 2560, 1600), false),
    ];
    assert_eq!(
        promotion_target(&displays, &primary).unwrap().gdi_name,
        "\\\\.\\DISPLAY1"
    );
}

#[test]
fn detaching_is_allowed_when_another_display_remains() {
    let leaving = display("\\\\.\\DISPLAY5", "p5", rect(0, 0, 1920, 1080), false);
    let displays = vec![
        leaving.clone(),
        display("\\\\.\\DISPLAY1", "p1", rect(1920, 0, 1707, 1067), true),
    ];
    assert!(detach_is_safe(&displays, &leaving).is_ok());
}

#[test]
fn an_already_detached_display_does_not_count_as_a_survivor() {
    let leaving = display("\\\\.\\DISPLAY5", "p5", rect(0, 0, 1920, 1080), true);
    let mut gone = display("\\\\.\\DISPLAY6", "p6", rect(0, 0, 0, 0), false);
    gone.is_attached = false;
    let displays = vec![leaving.clone(), gone];
    assert!(detach_is_safe(&displays, &leaving).is_err());
}

#[test]
fn the_noop_manager_never_pretends_to_have_detached_anything() {
    let d = display("\\\\.\\DISPLAY5", "p5", rect(0, 0, 1920, 1080), true);
    let mut noop = NoopDesktop::new();
    assert!(noop.displays().unwrap().is_empty());
    assert!(noop.sweep_windows_off(&d).unwrap().is_empty());
    assert_eq!(noop.detach(&d).unwrap_err(), DesktopError::Unsupported);
}

#[test]
fn rect_geometry() {
    let r = rect(100, 50, 800, 600);
    assert_eq!((r.width(), r.height()), (800, 600));
    assert_eq!(r.center(), (500, 350));
    assert!(r.contains(100, 50));
    assert!(!r.contains(900, 50));
    assert!(rect(0, 0, 0, 0).is_empty());
}

#[test]
fn every_desktop_error_is_told() {
    for e in [
        DesktopError::Unsupported,
        DesktopError::DisplayNotFound("d".into()),
        DesktopError::RefusedUnsafe { display: "d".into(), reason: "r".into() },
        DesktopError::OsCall { operation: "o".into(), detail: "d".into() },
        DesktopError::NoSavedLayout("d".into()),
    ] {
        assert!(!e.to_string().is_empty());
    }
}

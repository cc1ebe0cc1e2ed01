use std::cell::RefCell;

use desktop_switcher::desk::{claim, release, restore_windows, set_primary, sweep};
use desktop_switcher::desktop::{
    DesktopDisplay, DesktopError, DesktopManager, MovedWindow, NoopDesktop, Rect, RestoreReport,
    SavedDisplayMode, SweepReport,
};
use desktop_switcher::desktop_live::{LiveDesktop, Reach};
use desktop_switcher::eventlog::EventLog;
use desktop_switcher::layers::{ReleasedState, SweptState};
use desktop_switcher::page::{Line, Page};

fn rect(left: i32, top: i32, w: i32, h: i32) -> Rect {
    Rect { left, top, right: left + w, bottom: top + h }
}

fn display(n: i32, primary: bool) -> DesktopDisplay {
    DesktopDisplay {
        gdi_name: format!("\\\\.\\DISPLAY{n}"),
        device_path: format!("path-{n}"),
        friendly_name: Some(format!("Panel {n}")),
        rect: rect(1920 * (n - 1), 0, 1920, 1080),
        is_primary: primary,
        is_attached: true,
        is_internal: false,
    }
}

fn text(page: &Page) -> String {
    page.lines
        .iter()
        .map(|l| match l {
            Line::Out(t) | Line::Aside(t) => t.clone(),
        })
        .collect::<Vec<String>>()
        .join("\n")
}

fn mode() -> SavedDisplayMode {
    SavedDisplayMode {
        width: 1920,
        height: 1080,
        pos_x: 0,
        pos_y: 0,
        refresh_hz: 60,
        bits_per_pixel: 32,
    }
}

fn window(title: &str) -> MovedWindow {
    MovedWindow { title: title.into(), from: rect(1, 2, 30, 40), was_maximized: false }
}

fn refused(operation: &str) -> DesktopError {
    DesktopError::OsCall { operation: operation.into(), detail: "no".into() }
}

/// A desktop that does what it is told, writes down what that was, and can be
/// made to refuse.
struct Desk {
    displays: RefCell<Vec<DesktopDisplay>>,
    asked: RefCell<Vec<String>>,
    refuses: Vec<&'static str>,
    windows: Vec<MovedWindow>,
    gone: Vec<String>,
}

impl Desk {
    fn with(displays: Vec<DesktopDisplay>) -> Self {
        Desk {
            displays: RefCell::new(displays),
            asked: RefCell::new(Vec::new()),
            refuses: Vec::new(),
            windows: Vec::new(),
            gone: Vec::new(),
        }
    }

    fn note(&self, what: String) -> bool {
        let no = self.refuses.iter().any(|r| what.starts_with(*r));
        self.asked.borrow_mut().push(what);
        !no
    }

    fn asked(&self) -> Vec<String> {
        self.asked.borrow().clone()
    }
}

impl Desk {
    fn sweep_windows_off(&self, display: &DesktopDisplay) -> Result<SweepReport, DesktopError> {
        if !self.note(format!("sweep {}", display.device_path)) {
            return Err(refused("sweeping"));
        }
        Ok(SweepReport { moved: self.windows.clone(), skipped: Vec::new() })
    }

    fn restore_windows(&self, windows: &[MovedWindow]) -> Result<RestoreReport, DesktopError> {
        let titles: Vec<String> = windows.iter().map(|w| w.title.clone()).collect();
        if !self.note(format!("restore {}", titles.join(","))) {
            return Err(refused("restoring"));
        }
        let (missing, restored) = titles.into_iter().partition(|t| self.gone.contains(t));
        Ok(RestoreReport { restored, missing })
    }

    fn set_primary(&self, display: &DesktopDisplay) -> Result<(), DesktopError> {
        if !self.note(format!("primary {}", display.device_path)) {
            return Err(refused("making it primary"));
        }
        for d in self.displays.borrow_mut().iter_mut() {
            d.is_primary = d.device_path == display.device_path;
        }
        Ok(())
    }

    fn detach(&self, display: &DesktopDisplay) -> Result<SavedDisplayMode, DesktopError> {
        if !self.note(format!("detach {}", display.device_path)) {
            return Err(refused("detaching"));
        }
        for d in self.displays.borrow_mut().iter_mut() {
            if d.device_path == display.device_path {
                d.is_attached = false;
            }
        }
        Ok(mode())
    }

    fn attach(&self, display: &DesktopDisplay, saved: SavedDisplayMode) -> Result<(), DesktopError> {
        if !self.note(format!("attach {} {}", display.device_path, saved.width)) {
            return Err(refused("attaching"));
        }
        for d in self.displays.borrow_mut().iter_mut() {
            if d.device_path == display.device_path {
                d.is_attached = true;
            }
        }
        Ok(())
    }

    /// The desktop as the library reaches it.
    fn reached(&self) -> impl DesktopManager + '_ {
        LiveDesktop::new(
            "scripted".into(),
            Reach {
                displays: || Ok(self.displays.borrow().clone()),
                sweep: |d: &DesktopDisplay| self.sweep_windows_off(d),
                restore: |windows: &[MovedWindow]| self.restore_windows(windows),
                promote: |d: &DesktopDisplay| self.set_primary(d),
                detach: |d: &DesktopDisplay| self.detach(d),
                attach: |d: &DesktopDisplay, saved: SavedDisplayMode| self.attach(d, saved),
            },
        )
    }
}

fn two() -> Desk {
    Desk::with(vec![display(1, true), display(2, false)])
}

fn a_log() -> EventLog {
    EventLog::at("/nowhere/events.log".into())
}

#[test]
fn a_display_is_released_and_remembered() {
    let desk = two();
    let mut state = ReleasedState::default();
    let mut log = a_log();
    let done = release(&mut desk.reached(), "path-2", "side", &mut state, &mut log);
    assert_eq!(done.result, Ok(0));
    assert!(done.keep);
    assert!(done.page.lines.is_empty());
    assert!(text(&done.after).starts_with("Released `side` from this desktop."));
    assert_eq!(desk.asked(), vec!["detach path-2".to_string()]);
    assert_eq!(state.released.get("path-2"), Some(&mode()));
    assert!(state.was_primary.is_empty());
    let lines = log.take_pending();
    assert_eq!(lines.len(), 1);
    assert!(lines[0].contains("desktop.release"), "{}", lines[0]);
    assert!(lines[0].contains("monitor=side"), "{}", lines[0]);
}

#[test]
fn the_primary_role_is_handed_over_before_a_release() {
    let desk = two();
    let mut state = ReleasedState::default();
    let done = release(&mut desk.reached(), "path-1", "main", &mut state, &mut a_log());
    assert_eq!(done.result, Ok(0));
    assert_eq!(
        text(&done.page),
        "`main` is the primary display; making Panel 2 primary first."
    );
    assert_eq!(
        desk.asked(),
        vec!["primary path-2".to_string(), "detach path-1".to_string()]
    );
    assert_eq!(state.was_primary, vec!["path-1".to_string()]);
}

#[test]
fn a_detach_that_fails_gives_the_role_back() {
    let mut desk = two();
    desk.refuses = vec!["detach"];
    let mut state = ReleasedState::default();
    let mut log = a_log();
    let done = release(&mut desk.reached(), "path-1", "main", &mut state, &mut log);
    let why = done.result.unwrap_err();
    assert!(why.starts_with("detaching failed: no"), "{why}");
    assert!(why.contains("has been put back"), "{why}");
    assert_eq!(
        desk.asked(),
        vec![
            "primary path-2".to_string(),
            "detach path-1".to_string(),
            "primary path-1".to_string()
        ]
    );
    assert!(!done.keep);
    assert_eq!(state, ReleasedState::default());
    assert!(log.take_pending().is_empty());
}

#[test]
fn a_detach_that_cannot_be_undone_says_so() {
    let mut desk = two();
    desk.refuses = vec!["detach", "primary path-1"];
    let mut state = ReleasedState::default();
    let done = release(&mut desk.reached(), "path-1", "main", &mut state, &mut a_log());
    let why = done.result.unwrap_err();
    assert!(why.contains("Worse: `main`"), "{why}");
    assert!(why.contains("making it primary failed: no"), "{why}");
    // A display that was not the primary one has nothing to give back.
    let mut side = two();
    side.refuses = vec!["detach"];
    let done = release(&mut side.reached(), "path-2", "side", &mut state, &mut a_log());
    assert_eq!(done.result, Err("detaching failed: no".to_string()));
    assert_eq!(side.asked(), vec!["detach path-2".to_string()]);
}

#[test]
fn the_last_screen_is_not_released() {
    let desk = Desk::with(vec![display(1, true)]);
    let mut state = ReleasedState::default();
    let done = release(&mut desk.reached(), "path-1", "main", &mut state, &mut a_log());
    assert!(done.result.unwrap_err().contains("no other attached display"));
    assert!(desk.asked().is_empty());
}

#[test]
fn a_released_display_is_claimed_back_as_it_was() {
    let desk = two();
    let mut state = ReleasedState::default();
    let mut log = a_log();
    release(&mut desk.reached(), "path-1", "main", &mut state, &mut log);
    let again = release(&mut desk.reached(), "path-1", "main", &mut state, &mut log);
    assert_eq!(
        text(&again.page),
        "`main` is already detached from this desktop. Nothing to do."
    );
    let done = claim(&mut desk.reached(), "path-1", "main", &mut state, &mut log);
    assert_eq!(done.result, Ok(0));
    assert!(done.keep);
    assert_eq!(text(&done.page), "Restored `main` as the primary display.");
    assert_eq!(
        text(&done.after),
        "Claimed `main`: restored at 1920x1080 and (0, 0)."
    );
    assert_eq!(desk.asked()[2..].to_vec(), vec!["attach path-1 1920", "primary path-1"]);
    assert_eq!(state, ReleasedState::default());
    let done = claim(&mut desk.reached(), "path-1", "main", &mut state, &mut log);
    assert_eq!(
        text(&done.page),
        "`main` is already attached to this desktop. Nothing to do."
    );
}

#[test]
fn a_display_nobody_released_is_claimed_anyway() {
    let mut desk = two();
    desk.displays.borrow_mut()[1].is_attached = false;
    let mut state = ReleasedState::default();
    let done = claim(&mut desk.reached(), "path-2", "side", &mut state, &mut a_log());
    assert_eq!(done.result, Ok(0));
    assert!(text(&done.page).starts_with("No saved layout for `side`"));
    assert_eq!(desk.asked(), vec!["attach path-2 0".to_string()]);
    desk.displays.borrow_mut()[1].is_attached = false;
    desk.refuses = vec!["attach"];
    let done = claim(&mut desk.reached(), "path-2", "side", &mut state, &mut a_log());
    assert_eq!(done.result, Err("attaching failed: no".to_string()));
    assert!(!done.keep);
}

#[test]
fn a_sweep_is_remembered_until_it_is_undone() {
    let mut desk = two();
    desk.windows = vec![window("mail"), window("notes")];
    desk.gone = vec!["notes".to_string()];
    let mut state = SweptState::default();
    let mut log = a_log();
    let done = sweep(&mut desk.reached(), "path-2", "side", &mut state, &mut log);
    assert_eq!(done.result, Ok(0));
    assert!(done.keep);
    assert!(text(&done.after).starts_with("Moved 2 window(s) off `side`:"));
    assert_eq!(state.windows("path-2").map(|w| w.len()), Some(2));
    assert!(log.take_pending()[0].contains("moved=2"));
    // A sweep that moves nothing keeps what the last one saved.
    desk.windows = Vec::new();
    let done = sweep(&mut desk.reached(), "path-2", "side", &mut state, &mut log);
    assert!(!done.keep);
    assert_eq!(state.windows("path-2").map(|w| w.len()), Some(2));
    log.take_pending();

    let done = restore_windows(&mut desk.reached(), None, &mut state, &mut log);
    assert_eq!(done.result, Ok(0));
    assert!(text(&done.page).starts_with("Put 1 window(s) back:\n  - mail"));
    assert!(text(&done.page).contains("Could not find 1 window(s):\n  - notes"));
    assert!(state.swept.is_empty());
    let lines = log.take_pending();
    assert_eq!(lines.len(), 1);
    assert!(lines[0].contains("restored=1") && lines[0].contains("missing=1"), "{}", lines[0]);
    let done = restore_windows(&mut desk.reached(), None, &mut state, &mut log);
    assert_eq!(
        text(&done.page),
        "Nothing has been swept, so there is nothing to put back."
    );
}

#[test]
fn one_monitor_is_restored_without_the_others() {
    let mut desk = two();
    let mut state = SweptState::default();
    state.remember("path-1", vec![window("mail")]);
    state.remember("path-2", vec![window("notes")]);
    let done = restore_windows(&mut desk.reached(), Some("path-2"), &mut state, &mut a_log());
    assert_eq!(done.result, Ok(0));
    assert_eq!(desk.asked(), vec!["restore notes".to_string()]);
    assert!(state.windows("path-1").is_some() && state.windows("path-2").is_none());
    let done = restore_windows(&mut desk.reached(), Some("path-2"), &mut state, &mut a_log());
    assert_eq!(text(&done.page), "Nothing was swept off that monitor.");
    desk.gone = vec!["mail".to_string()];
    let done = restore_windows(&mut desk.reached(), None, &mut state, &mut a_log());
    assert_eq!(done.result, Ok(1));
    assert_eq!(text(&done.after), "None of the swept windows could be found.");
}

#[test]
fn a_restore_that_fails_forgets_nothing() {
    let mut desk = two();
    desk.refuses = vec!["restore notes"];
    let mut state = SweptState::default();
    state.remember("path-1", vec![window("mail")]);
    state.remember("path-2", vec![window("notes")]);
    let mut log = a_log();
    let done = restore_windows(&mut desk.reached(), None, &mut state, &mut log);
    assert_eq!(done.result, Err("restoring failed: no".to_string()));
    assert!(text(&done.page).contains("mail"));
    assert!(!done.keep);
    assert!(state.windows("path-1").is_some() && state.windows("path-2").is_some());
    assert_eq!(log.take_pending().len(), 1);
}

#[test]
fn a_display_is_made_the_primary_one() {
    let desk = two();
    let mut log = a_log();
    let done = set_primary(&mut desk.reached(), "path-2", "side", &mut log);
    assert_eq!(text(&done.after), "`side` is now the primary display.");
    assert!(log.take_pending()[0].contains("desktop.set-primary"));
    let done = set_primary(&mut desk.reached(), "path-2", "side", &mut log);
    assert_eq!(
        text(&done.page),
        "`side` is already the primary display. Nothing to do."
    );
    assert_eq!(desk.asked(), vec!["primary path-2".to_string()]);
    let mut stubborn = two();
    stubborn.refuses = vec!["primary"];
    let done = set_primary(&mut stubborn.reached(), "path-2", "side", &mut log);
    assert_eq!(done.result, Err("making it primary failed: no".to_string()));
}

#[test]
fn an_unmanaged_desktop_refuses_politely() {
    let mut state = SweptState::default();
    let done = sweep(&mut NoopDesktop::new(), "path-2", "side", &mut state, &mut a_log());
    let why = done.result.unwrap_err();
    assert!(why.contains("cannot manage desktop attachment"), "{why}");
    let detached = two();
    detached.displays.borrow_mut()[1].is_attached = false;
    let done = sweep(&mut detached.reached(), "path-2", "side", &mut state, &mut a_log());
    assert_eq!(
        text(&done.page),
        "`side` is not attached to this desktop, so nothing can be on it."
    );
}

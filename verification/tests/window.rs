use std::cell::RefCell;

use desktop_switcher::arrange::WindowFacts;
use desktop_switcher::desktop::{MovedWindow, Rect, SweepReport};
use desktop_switcher::hands::{Grip, Hands};
use desktop_switcher::window::{restore_window, sweep_window};

fn rect(left: i32, top: i32, w: i32, h: i32) -> Rect {
    Rect { left, top, right: left + w, bottom: top + h }
}

fn facts(title: &str, bounds: Option<Rect>) -> WindowFacts {
    WindowFacts { visible: true, tool: false, title: title.into(), bounds }
}

/// A window that writes down what is done to it.
struct Shown {
    at: RefCell<Rect>,
    maximized: bool,
    once_restored: Rect,
    stays_put: bool,
    refuses: bool,
    done: RefCell<Vec<String>>,
}

impl Shown {
    fn at(r: Rect) -> Self {
        Shown {
            at: RefCell::new(r),
            maximized: false,
            once_restored: r,
            stays_put: false,
            refuses: false,
            done: RefCell::new(Vec::new()),
        }
    }

    fn note(&self, what: String) {
        self.done.borrow_mut().push(what);
    }

    fn move_to(&self, x: i32, y: i32) -> bool {
        self.note(format!("move {x} {y}"));
        if self.refuses {
            return false;
        }
        if !self.stays_put {
            let r = *self.at.borrow();
            *self.at.borrow_mut() = rect(x, y, r.right - r.left, r.bottom - r.top);
        }
        true
    }

    fn restore(&self) {
        self.note("restore".to_string());
        *self.at.borrow_mut() = self.once_restored;
    }
}

fn swept(window: &Shown, f: WindowFacts) -> SweepReport {
    let mut report = SweepReport::default();
    let mut hands = Hands::new(Grip {
        is_maximized: || window.maximized,
        restore: || window.restore(),
        bounds: || Some(*window.at.borrow()),
        move_to: |x: i32, y: i32| window.move_to(x, y),
        maximize: || window.note("maximize".to_string()),
    });
    sweep_window(f, &rect(1920, 0, 1920, 1080), &rect(0, 0, 1920, 1080), &mut hands, &mut report);
    report
}

#[test]
fn a_window_is_moved_and_remembered_where_it_was() {
    let start = rect(2020, 50, 400, 300);
    let window = Shown::at(start);
    let report = swept(&window, facts("mail", Some(start)));
    assert_eq!(window.done.borrow().clone(), vec!["move 100 50".to_string()]);
    assert_eq!(report.moved.len(), 1);
    assert_eq!(report.moved[0].from, start);
    assert!(!report.moved[0].was_maximized);
}

#[test]
fn a_maximized_window_is_restored_moved_and_maximized() {
    let full = rect(1920, 0, 1920, 1080);
    let mut window = Shown::at(full);
    window.maximized = true;
    window.once_restored = rect(2000, 80, 500, 400);
    let report = swept(&window, facts("mail", Some(full)));
    assert_eq!(
        window.done.borrow().clone(),
        vec!["restore".to_string(), "move 80 80".to_string(), "maximize".to_string()]
    );
    assert_eq!(report.moved[0].from, full);
    assert!(report.moved[0].was_maximized);
}

#[test]
fn a_window_that_stays_put_is_not_called_moved() {
    let start = rect(2020, 50, 400, 300);
    let mut window = Shown::at(start);
    window.stays_put = true;
    let report = swept(&window, facts("admin", Some(start)));
    assert!(report.moved.is_empty());
    assert_eq!(report.skipped, vec!["admin".to_string()]);
    let mut stubborn = Shown::at(start);
    stubborn.refuses = true;
    assert_eq!(swept(&stubborn, facts("admin", Some(start))).skipped.len(), 1);
}

#[test]
fn windows_elsewhere_are_left_alone() {
    let window = Shown::at(rect(10, 10, 100, 100));
    for f in [
        facts("here", Some(rect(10, 10, 100, 100))),
        facts("", Some(rect(2020, 50, 400, 300))),
        facts("nowhere", None),
    ] {
        let report = swept(&window, f);
        assert!(report.moved.is_empty() && report.skipped.is_empty());
    }
    assert!(window.done.borrow().is_empty());
}

fn put_back(window: &Shown, visible: bool, title: &str, done: &mut Vec<String>) {
    let wanted = vec![
        MovedWindow { title: "mail".into(), from: rect(2020, 50, 400, 300), was_maximized: true },
        MovedWindow { title: "notes".into(), from: rect(2500, 0, 400, 300), was_maximized: false },
    ];
    let mut hands = Hands::new(Grip {
        is_maximized: || window.maximized,
        restore: || window.restore(),
        bounds: || None,
        move_to: |x: i32, y: i32| window.move_to(x, y),
        maximize: || window.note("maximize".to_string()),
    });
    restore_window(visible, title, &wanted, &mut hands, done);
}

#[test]
fn a_window_is_put_back_once() {
    let mut window = Shown::at(rect(0, 0, 400, 300));
    window.maximized = true;
    let mut done = Vec::new();
    put_back(&window, true, "mail", &mut done);
    assert_eq!(done, vec!["mail".to_string()]);
    assert_eq!(
        window.done.borrow().clone(),
        vec!["restore".to_string(), "move 2020 50".to_string(), "maximize".to_string()]
    );
    put_back(&window, true, "mail", &mut done);
    put_back(&window, false, "notes", &mut done);
    put_back(&window, true, "", &mut done);
    put_back(&window, true, "other", &mut done);
    assert_eq!(window.done.borrow().len(), 3);
    let mut stubborn = Shown::at(rect(0, 0, 400, 300));
    stubborn.refuses = true;
    put_back(&stubborn, true, "notes", &mut done);
    assert_eq!(done, vec!["mail".to_string()]);
    assert_eq!(stubborn.done.borrow().clone(), vec!["move 2500 0".to_string()]);
}

use std::cell::RefCell;

use desktop_switcher::actions::{Action, ActionStep};
use desktop_switcher::backend::MonitorBackend;
use desktop_switcher::config::{BackendKind, Config};
use desktop_switcher::fake::{FakeBackend, FakeMonitor};
use desktop_switcher::interview::configure;
use desktop_switcher::page::{Line, Page};
use desktop_switcher::prompt::PromptError;
use desktop_switcher::terminal::Terminal;
use desktop_switcher::types::{Evidence, InputCode};

/// Someone at the terminal with their answers ready.
struct Person {
    consents: RefCell<Vec<bool>>,
    names: RefCell<Vec<Option<String>>>,
    heard: RefCell<Vec<String>>,
}

impl Person {
    fn with(consents: Vec<bool>, names: Vec<Option<&str>>) -> Self {
        Person {
            consents: RefCell::new(consents),
            names: RefCell::new(names.into_iter().map(|n| n.map(String::from)).collect()),
            heard: RefCell::new(Vec::new()),
        }
    }

    fn hear(&self, page: &Page) {
        for line in &page.lines {
            match line {
                Line::Out(t) | Line::Aside(t) => self.heard.borrow_mut().push(t.clone()),
            }
        }
    }

    fn confirm(&self, question: &str) -> Result<bool, PromptError> {
        assert_eq!(question, "  Manage this monitor?");
        let mut left = self.consents.borrow_mut();
        if left.is_empty() {
            return Err(PromptError::EndOfInput);
        }
        Ok(left.remove(0))
    }

    /// The name that was prepared, or the one that is suggested.
    fn name(&self, question: &str, suggestion: &str) -> Result<String, PromptError> {
        assert_eq!(question, "  A name for it");
        let mut left = self.names.borrow_mut();
        if left.is_empty() {
            return Err(PromptError::NotATerminal);
        }
        Ok(left.remove(0).unwrap_or(suggestion.to_string()))
    }

    fn text(&self) -> String {
        self.heard.borrow().join("\n")
    }
}

fn backend() -> FakeBackend {
    FakeBackend::new(vec![
        FakeMonitor::new("port-a", Some("SN-L"), 0x11),
        FakeMonitor::new("port-b", Some("SN-R"), 0x0F),
        FakeMonitor::internal_panel("panel"),
    ])
}

fn converse(
    person: &Person,
    existing: Option<&Config>,
    be: &mut FakeBackend,
) -> Result<Config, String> {
    let detected = be.discover().unwrap();
    let mut terminal = Terminal::new(
        |page: &Page| person.hear(page),
        |question: &str| person.confirm(question),
        |question: &str, suggestion: &str| person.name(question, suggestion),
    );
    configure(
        &detected,
        "this-host",
        BackendKind::Fake,
        existing,
        be,
        &mut terminal,
    )
}

#[test]
fn managed_monitors_are_recorded_and_nothing_is_written() {
    let person = Person::with(vec![true, true], vec![Some("Desk"), None]);
    let mut be = backend();
    let config = converse(&person, None, &mut be).unwrap();
    assert_eq!(config.monitors.len(), 2);
    assert_eq!(config.monitors[0].label, "Desk");
    assert_eq!(config.monitors[0].key, "SN-L");
    assert_eq!(config.monitors[1].label, "27P2DG5 (s/n SN-R)");
    assert_eq!(config.monitors[0].inputs.len(), 4);
    assert_eq!(config.monitors[0].inputs[2].input_code, InputCode(0x11));
    assert_eq!(config.monitors[0].inputs[2].verification, Evidence::Reported);
    assert!(be.writes().is_empty());
    let text = person.text();
    assert!(text.contains("It writes nothing to a monitor."), "{text}");
    assert!(text.contains("currently on: "), "{text}");
    assert!(text.contains("  Inputs it reports:"), "{text}");
}

#[test]
fn a_monitor_can_be_left_out() {
    let mut first = converse(
        &Person::with(vec![true, true], vec![Some("Left"), Some("Right")]),
        None,
        &mut backend(),
    )
    .unwrap();
    first.settle_ms = 77;
    first.monitors[1].inputs[0].label = Some("Laptop".into());
    let step = |monitor: &str| ActionStep::SetInput {
        monitor: monitor.into(),
        code: InputCode(0x0F),
    };
    first.actions = vec![
        Action { name: "left".into(), hotkey: None, steps: vec![step("SN-L")] },
        Action { name: "right".into(), hotkey: None, steps: vec![step("SN-R")] },
    ];
    let person = Person::with(vec![false, true], vec![None]);
    let config = converse(&person, Some(&first), &mut backend()).unwrap();
    assert!(person.text().contains("  Skipped."));
    assert_eq!(config.monitors.len(), 1);
    assert_eq!(config.monitors[0].label, "Right");
    assert_eq!(config.monitors[0].inputs[0].label.as_deref(), Some("Laptop"));
    assert_eq!(config.settle_ms, 77);
    // What refers to the monitor that was left out goes with it.
    assert_eq!(config.actions.len(), 1);
    assert_eq!(config.actions[0].name, "right");
}

#[test]
fn nothing_chosen_is_nothing_saved() {
    let person = Person::with(vec![false, false], vec![]);
    assert_eq!(
        converse(&person, None, &mut backend()).unwrap_err(),
        "No monitor was selected, so there is nothing to save."
    );
    let mut alike = FakeBackend::new(vec![
        FakeMonitor::new("port-a", Some("SN"), 0x11),
        FakeMonitor::new("port-b", Some("SN"), 0x0F),
    ]);
    let why = converse(&Person::with(vec![], vec![]), None, &mut alike).unwrap_err();
    assert!(why.starts_with("Serial(s) SN appear on more than one display."), "{why}");
    assert!(alike.reads().is_empty());
}

#[test]
fn a_question_nobody_answers_ends_it() {
    let person = Person::with(vec![true], vec![Some("Left")]);
    let mut be = backend();
    assert_eq!(
        converse(&person, None, &mut be).unwrap_err(),
        "input ended before the question was answered"
    );
    assert_eq!(be.reads().len(), 2);
    let person = Person::with(vec![true, true], vec![]);
    let why = converse(&person, None, &mut backend()).unwrap_err();
    assert!(why.contains("interactive terminal"), "{why}");
}

//! What the settings window does, apart from drawing.
//!
//! It owns no rule of its own. Everything it *does*, it does by running the
//! command line, so there is one implementation of the rules. What it owns is
//! the configuration: the named actions and the hotkeys they are bound to.

use vstd::prelude::*;

use crate::actions::{Action, ActionStep, ActionStepView, ActionView};
use crate::config::{Config, ConfigView};
use crate::digits::{dec, decimal};
use crate::text::{
    cat2, cat3, chars_of, has_text, is_blank, lemma_has_text_between, opt_text, pieces, string_of,
    texts, trimmed, words, words_of,
};

verus! {

// ---------------------------------------------------------------------------
// Steps
// ---------------------------------------------------------------------------

/// The kinds of step that can be put together in the window.
#[derive(Debug, Clone, Copy, PartialEq, Eq, Structural)]
pub enum StepKind {
    Switch,
    Sweep,
    Release,
    Claim,
    Primary,
    Run,
}

/// The kind of a step; none where the window shows a step without editing it.
pub open spec fn kind_of(step: ActionStepView) -> Option<StepKind> {
    match step {
        ActionStepView::Switch { destination } => Some(StepKind::Switch),
        ActionStepView::Sweep { monitor } => Some(StepKind::Sweep),
        ActionStepView::Release { monitor } => Some(StepKind::Release),
        ActionStepView::Claim { monitor } => Some(StepKind::Claim),
        ActionStepView::Primary { monitor } => Some(StepKind::Primary),
        ActionStepView::Run { command, args } => Some(StepKind::Run),
        _ => None,
    }
}

pub fn step_kind(step: &ActionStep) -> (r: Option<StepKind>)
    ensures
        r == kind_of(step.deep_view()),
{
    match step {
        ActionStep::Switch { .. } => Some(StepKind::Switch),
        ActionStep::Sweep { .. } => Some(StepKind::Sweep),
        ActionStep::Release { .. } => Some(StepKind::Release),
        ActionStep::Claim { .. } => Some(StepKind::Claim),
        ActionStep::Primary { .. } => Some(StepKind::Primary),
        ActionStep::Run { .. } => Some(StepKind::Run),
        _ => None,
    }
}

pub open spec fn kind_name(kind: StepKind) -> Seq<char> {
    match kind {
        StepKind::Switch => "Switch input"@,
        StepKind::Sweep => "Sweep windows"@,
        StepKind::Release => "Release (exp.)"@,
        StepKind::Claim => "Claim (exp.)"@,
        StepKind::Primary => "Make primary (exp.)"@,
        StepKind::Run => "Run a command"@,
    }
}

pub fn kind_label(kind: StepKind) -> (r: &'static str)
    ensures
        r@ == kind_name(kind),
{
    match kind {
        StepKind::Switch => "Switch input",
        StepKind::Sweep => "Sweep windows",
        StepKind::Release => "Release (exp.)",
        StepKind::Claim => "Claim (exp.)",
        StepKind::Primary => "Make primary (exp.)",
        StepKind::Run => "Run a command",
    }
}

pub open spec fn first_of(all: Seq<Seq<char>>) -> Option<Seq<char>> {
    if all.len() == 0 {
        None
    } else {
        Some(all[0])
    }
}

/// A new step of a kind, about the first destination or monitor there is.
pub open spec fn fresh_step(
    kind: StepKind,
    destinations: Seq<Seq<char>>,
    monitors: Seq<Seq<char>>,
) -> ActionStepView {
    let monitor = first_of(monitors);
    match kind {
        StepKind::Switch => ActionStepView::Switch {
            destination: match first_of(destinations) {
                Some(d) => d,
                None => Seq::empty(),
            },
        },
        StepKind::Sweep => ActionStepView::Sweep { monitor },
        StepKind::Release => ActionStepView::Release { monitor },
        StepKind::Claim => ActionStepView::Claim { monitor },
        StepKind::Primary => ActionStepView::Primary { monitor },
        StepKind::Run => ActionStepView::Run { command: Seq::empty(), args: Seq::empty() },
    }
}

fn first_text(all: &[String]) -> (r: Option<String>)
    ensures
        opt_text(r) == first_of(texts(all@)),
{
    if all.len() == 0 {
        None
    } else {
        assert(texts(all@)[0] == all@[0]@);
        Some(all[0].clone())
    }
}

pub fn default_step(kind: StepKind, destinations: &[String], monitors: &[String]) -> (r: ActionStep)
    ensures
        r.deep_view() == fresh_step(kind, texts(destinations@), texts(monitors@)),
{
    let monitor = first_text(monitors);
    match kind {
        StepKind::Switch => {
            let destination = match first_text(destinations) {
                Some(d) => d,
                None => String::new(),
            };
            let r = ActionStep::Switch { destination };
            assert(destinations@.len() == 0 ==> destination@ =~= Seq::<char>::empty());
            r
        },
        StepKind::Sweep => ActionStep::Sweep { monitor },
        StepKind::Release => ActionStep::Release { monitor },
        StepKind::Claim => ActionStep::Claim { monitor },
        StepKind::Primary => ActionStep::Primary { monitor },
        StepKind::Run => {
            let command = String::new();
            let args: Vec<String> = Vec::new();
            assert(command@ =~= Seq::<char>::empty());
            assert(texts(args@) =~= Seq::<Seq<char>>::empty());
            ActionStep::Run { command, args }
        },
    }
}

/// A step once a kind has been picked for it. Another kind replaces it, so the
/// fields of the one before do not linger unseen in the saved file.
pub open spec fn with_kind(
    step: ActionStepView,
    kind: StepKind,
    destinations: Seq<Seq<char>>,
    monitors: Seq<Seq<char>>,
) -> ActionStepView {
    if kind_of(step) == Some(kind) {
        step
    } else {
        fresh_step(kind, destinations, monitors)
    }
}

/// Picks a kind for a step, and says whether that changed it.
pub fn pick_kind(
    step: &mut ActionStep,
    kind: StepKind,
    destinations: &[String],
    monitors: &[String],
) -> (changed: bool)
    ensures
        final(step).deep_view() == with_kind(
            old(step).deep_view(),
            kind,
            texts(destinations@),
            texts(monitors@),
        ),
        changed == (kind_of(old(step).deep_view()) != Some(kind)),
{
    let same = match step_kind(step) {
        Some(k) => k == kind,
        None => false,
    };
    if same {
        return false;
    }
    *step = default_step(kind, destinations, monitors);
    true
}

/// The monitor picked in a list whose first choice, the empty one, stands for
/// the only monitor there is.
pub open spec fn picked(selected: Seq<char>) -> Option<Seq<char>> {
    if selected.len() == 0 {
        None
    } else {
        Some(selected)
    }
}

pub fn picked_monitor(selected: &str) -> (r: Option<String>)
    ensures
        opt_text(r) == picked(selected@),
{
    if selected.unicode_len() == 0 {
        None
    } else {
        Some(selected.to_owned())
    }
}

/// How a step names its monitor in that list.
pub fn monitor_text(monitor: &Option<String>) -> (r: String)
    ensures
        r@ == match opt_text(*monitor) {
            None => "(the only monitor)"@,
            Some(m) => if m.len() == 0 {
                "(the only monitor)"@
            } else {
                m
            },
        },
{
    match monitor {
        None => "(the only monitor)".to_owned(),
        Some(m) => {
            if m.as_str().unicode_len() == 0 {
                "(the only monitor)".to_owned()
            } else {
                m.clone()
            }
        },
    }
}

/// The arguments in a line. They are split at white space and handed over as a
/// list, never to a shell, so quotes mean nothing.
pub fn split_args(line: &str) -> (r: Vec<String>)
    ensures
        texts(r@) == words_of(line@),
{
    let cs = chars_of(line);
    let ws = words(cs.as_slice());
    let ghost want = words_of(line@);
    let mut out: Vec<String> = Vec::new();
    let mut i: usize = 0;
    assert(texts(out@) =~= want.take(0));
    while i < ws.len()
        invariant
            i <= ws@.len(),
            pieces(ws@) == want,
            texts(out@) == want.take(i as int),
        decreases ws@.len() - i,
    {
        assert(want[i as int] == ws@[i as int]@);
        let ghost had = texts(out@);
        out.push(string_of(ws[i]));
        assert(texts(out@) =~= had.push(want[i as int]));
        i += 1;
    }
    assert(want.take(want.len() as int) =~= want);
    out
}

// ---------------------------------------------------------------------------
// Actions
// ---------------------------------------------------------------------------

/// The heading of an action: its name, or which one it is.
pub open spec fn header_text(index: nat, name: Seq<char>) -> Seq<char> {
    if trimmed(name).len() == 0 {
        "(unnamed action "@ + decimal(index + 1) + ")"@
    } else {
        name
    }
}

pub fn header(index: usize, name: &str) -> (r: String)
    requires
        index < usize::MAX,
    ensures
        r@ == header_text(index as nat, name@),
{
    if is_blank(name) {
        cat3("(unnamed action ", dec(index as u64 + 1).as_str(), ")")
    } else {
        name.to_owned()
    }
}

/// The hotkey a line stands for: none where it is blank.
pub open spec fn typed_hotkey(line: Seq<char>) -> Option<Seq<char>> {
    if trimmed(line).len() == 0 {
        None
    } else {
        Some(line)
    }
}

pub fn hotkey_from(line: &str) -> (r: Option<String>)
    ensures
        opt_text(r) == typed_hotkey(line@),
{
    if is_blank(line) {
        None
    } else {
        Some(line.to_owned())
    }
}

/// One change to the actions.
#[derive(Debug, PartialEq, Eq)]
pub enum Edit {
    Rename { action: usize, name: String },
    Hotkey { action: usize, line: String },
    Step { action: usize, step: usize, to: ActionStep },
    AddStep { action: usize, kind: StepKind },
    RemoveStep { action: usize, step: usize },
    RemoveAction { action: usize },
    NewAction,
}

#[allow(inconsistent_fields)]
pub enum EditView {
    Rename { action: int, name: Seq<char> },
    Hotkey { action: int, line: Seq<char> },
    Step { action: int, step: int, to: ActionStepView },
    AddStep { action: int, kind: StepKind },
    RemoveStep { action: int, step: int },
    RemoveAction { action: int },
    NewAction,
}

impl DeepView for Edit {
    type V = EditView;

    open spec fn deep_view(&self) -> EditView {
        match self {
            Edit::Rename { action, name } => EditView::Rename {
                action: *action as int,
                name: name@,
            },
            Edit::Hotkey { action, line } => EditView::Hotkey {
                action: *action as int,
                line: line@,
            },
            Edit::Step { action, step, to } => EditView::Step {
                action: *action as int,
                step: *step as int,
                to: to.deep_view(),
            },
            Edit::AddStep { action, kind } => EditView::AddStep {
                action: *action as int,
                kind: *kind,
            },
            Edit::RemoveStep { action, step } => EditView::RemoveStep {
                action: *action as int,
                step: *step as int,
            },
            Edit::RemoveAction { action } => EditView::RemoveAction { action: *action as int },
            Edit::NewAction => EditView::NewAction,
        }
    }
}

/// An action once a change has been made to it; the same where there is
/// nothing for the change to apply to.
pub open spec fn edited_action(
    a: ActionView,
    edit: EditView,
    destinations: Seq<Seq<char>>,
    monitors: Seq<Seq<char>>,
) -> ActionView {
    match edit {
        EditView::Rename { action, name } => ActionView { name, ..a },
        EditView::Hotkey { action, line } => ActionView { hotkey: typed_hotkey(line), ..a },
        EditView::Step { action, step, to } => if 0 <= step < a.steps.len() {
            ActionView { steps: a.steps.update(step, to), ..a }
        } else {
            a
        },
        EditView::AddStep { action, kind } => ActionView {
            steps: a.steps.push(fresh_step(kind, destinations, monitors)),
            ..a
        },
        EditView::RemoveStep { action, step } => if 0 <= step < a.steps.len() {
            ActionView { steps: a.steps.remove(step), ..a }
        } else {
            a
        },
        _ => a,
    }
}

/// The place of the action a change is about.
pub open spec fn about_action(edit: EditView) -> int {
    match edit {
        EditView::Rename { action, name } => action,
        EditView::Hotkey { action, line } => action,
        EditView::Step { action, step, to } => action,
        EditView::AddStep { action, kind } => action,
        EditView::RemoveStep { action, step } => action,
        EditView::RemoveAction { action } => action,
        EditView::NewAction => 0,
    }
}

/// A new action: numbered, and pointed at the first destination there is.
pub open spec fn new_action(count: nat, destinations: Seq<Seq<char>>) -> ActionView {
    ActionView {
        name: "Action "@ + decimal(count + 1),
        hotkey: None,
        steps: match first_of(destinations) {
            Some(destination) => seq![ActionStepView::Switch { destination }],
            None => Seq::empty(),
        },
    }
}

/// The actions after a change. One about an action that is not there changes
/// nothing.
pub open spec fn edited(
    actions: Seq<ActionView>,
    edit: EditView,
    destinations: Seq<Seq<char>>,
    monitors: Seq<Seq<char>>,
) -> Seq<ActionView> {
    let at = about_action(edit);
    match edit {
        EditView::NewAction => actions.push(new_action(actions.len(), destinations)),
        EditView::RemoveAction { action } => if 0 <= at < actions.len() {
            actions.remove(at)
        } else {
            actions
        },
        _ => if 0 <= at < actions.len() {
            actions.update(at, edited_action(actions[at], edit, destinations, monitors))
        } else {
            actions
        },
    }
}

fn change_action(a: Action, edit: Edit, destinations: &[String], monitors: &[String]) -> (r: Action)
    ensures
        r.deep_view() == edited_action(
            a.deep_view(),
            edit.deep_view(),
            texts(destinations@),
            texts(monitors@),
        ),
{
    let ghost was = a.deep_view();
    let mut a = a;
    match edit {
        Edit::Rename { name, .. } => {
            a.name = name;
        },
        Edit::Hotkey { line, .. } => {
            a.hotkey = hotkey_from(line.as_str());
        },
        Edit::Step { step, to, .. } => {
            if step < a.steps.len() {
                a.steps.set(step, to);
                assert(a.steps.deep_view() =~= was.steps.update(step as int, to.deep_view()));
            }
        },
        Edit::AddStep { kind, .. } => {
            let new = default_step(kind, destinations, monitors);
            a.steps.push(new);
            assert(a.steps.deep_view() =~= was.steps.push(new.deep_view()));
        },
        Edit::RemoveStep { step, .. } => {
            if step < a.steps.len() {
                let gone = a.steps.remove(step);
                assert(a.steps.deep_view() =~= was.steps.remove(step as int));
            }
        },
        _ => {},
    }
    a
}

fn place_of(edit: &Edit) -> (r: usize)
    ensures
        r == about_action(edit.deep_view()),
{
    match edit {
        Edit::Rename { action, .. } => *action,
        Edit::Hotkey { action, .. } => *action,
        Edit::Step { action, .. } => *action,
        Edit::AddStep { action, .. } => *action,
        Edit::RemoveStep { action, .. } => *action,
        Edit::RemoveAction { action } => *action,
        Edit::NewAction => 0,
    }
}

/// Makes a change to the actions of a configuration. Everything else in it
/// stays as it is.
pub fn apply_edit(config: &mut Config, edit: Edit, destinations: &[String], monitors: &[String])
    requires
        old(config).actions@.len() < usize::MAX,
    ensures
        final(config).deep_view() == (ConfigView {
            actions: edited(
                old(config).deep_view().actions,
                edit.deep_view(),
                texts(destinations@),
                texts(monitors@),
            ),
            ..old(config).deep_view()
        }),
{
    let ghost was = config.deep_view().actions;
    let at = place_of(&edit);
    match edit {
        Edit::NewAction => {
            let name = cat2("Action ", dec(config.actions.len() as u64 + 1).as_str());
            let mut action = Action::new(name.as_str());
            if let Some(destination) = first_text(destinations) {
                let step = ActionStep::Switch { destination };
                action.steps.push(step);
                assert(action.steps.deep_view() =~= seq![step.deep_view()]);
            }
            config.actions.push(action);
            assert(config.actions.deep_view() =~= was.push(action.deep_view()));
        },
        Edit::RemoveAction { .. } => {
            if at < config.actions.len() {
                let gone = config.actions.remove(at);
                assert(config.actions.deep_view() =~= was.remove(at as int));
            }
        },
        other => {
            if at < config.actions.len() {
                let a = config.actions.remove(at);
                assert(a.deep_view() == was[at as int]);
                let a = change_action(a, other, destinations, monitors);
                config.actions.insert(at, a);
                assert(config.actions.deep_view() =~= was.update(at as int, a.deep_view()));
            }
        },
    }
}

/// A change is about one action and leaves the others as they were.
pub proof fn law_an_edit_touches_one_action(
    actions: Seq<ActionView>,
    edit: EditView,
    destinations: Seq<Seq<char>>,
    monitors: Seq<Seq<char>>,
    i: int,
)
    requires
        0 <= i < actions.len(),
        edit !is RemoveAction,
        edit is NewAction || i != about_action(edit),
    ensures
        edited(actions, edit, destinations, monitors)[i] == actions[i],
        edited(actions, edit, destinations, monitors).len() == actions.len() + if edit is NewAction {
            1int
        } else {
            0
        },
{
}

// ---------------------------------------------------------------------------
// The window
// ---------------------------------------------------------------------------

/// What the window shows besides the configuration.
#[derive(Debug, PartialEq, Eq)]
pub struct Session {
    /// There are changes that have not been saved.
    pub dirty: bool,
    pub status: String,
    pub output: String,
    /// The command that is running.
    pub running: Option<String>,
}

pub struct SessionView {
    pub dirty: bool,
    pub status: Seq<char>,
    pub output: Seq<char>,
    pub running: Option<Seq<char>>,
}

impl DeepView for Session {
    type V = SessionView;

    open spec fn deep_view(&self) -> SessionView {
        SessionView {
            dirty: self.dirty,
            status: self.status@,
            output: self.output@,
            running: opt_text(self.running),
        }
    }
}

impl SessionView {
    pub open spec fn fresh() -> SessionView {
        SessionView {
            dirty: false,
            status: Seq::empty(),
            output: Seq::empty(),
            running: None,
        }
    }

    /// Whether a command may be started: the program was found, and none is
    /// running.
    pub open spec fn may_start(self, found: bool) -> bool {
        found && self.running is None
    }

    /// Once a command has been asked for.
    pub open spec fn asked(self, label: Seq<char>, found: bool) -> SessionView {
        if !found {
            SessionView {
                status: "desktop-switcher was not found next to this program or on PATH"@,
                ..self
            }
        } else if self.running is Some {
            SessionView { status: "Still running the previous command."@, ..self }
        } else {
            SessionView {
                running: Some(label),
                status: "Running: "@ + label + "…"@,
                output: Seq::empty(),
                ..self
            }
        }
    }

    /// Once a command has come to its end.
    pub open spec fn ended(self, label: Seq<char>, success: bool, output: Seq<char>) -> SessionView {
        SessionView {
            running: None,
            status: if success {
                label + " finished."@
            } else {
                label + " failed."@
            },
            output,
            ..self
        }
    }

    /// Once saving has been tried.
    pub open spec fn saved(self, path: Seq<char>, problem: Option<Seq<char>>) -> SessionView {
        match problem {
            None => SessionView { dirty: false, status: "Saved to "@ + path, ..self },
            Some(e) => SessionView { status: "Not saved: "@ + e, ..self },
        }
    }

    /// Once reading the file again has been tried.
    pub open spec fn reloaded(self, problem: Option<Seq<char>>) -> SessionView {
        match problem {
            None => SessionView { dirty: false, status: "Reloaded from disk."@, ..self },
            Some(e) => SessionView { status: "Could not reload: "@ + e, ..self },
        }
    }
}

impl Session {
    pub fn new() -> (r: Self)
        ensures
            r.deep_view() == SessionView::fresh(),
    {
        let r = Session {
            dirty: false,
            status: String::new(),
            output: String::new(),
            running: None,
        };
        assert(r.status@ =~= Seq::<char>::empty());
        assert(r.output@ =~= Seq::<char>::empty());
        r
    }

    /// Asks for a command, and says whether it is to be started. `found` tells
    /// whether the program was found.
    pub fn ask(&mut self, label: &str, found: bool) -> (start: bool)
        ensures
            start == old(self).deep_view().may_start(found),
            final(self).deep_view() == old(self).deep_view().asked(label@, found),
    {
        if !found {
            self.status =
            "desktop-switcher was not found next to this program or on PATH".to_owned();
            return false;
        }
        if self.running.is_some() {
            self.status = "Still running the previous command.".to_owned();
            return false;
        }
        self.running = Some(label.to_owned());
        self.status = cat3("Running: ", label, "…");
        self.output = String::new();
        assert(self.output@ =~= Seq::<char>::empty());
        true
    }

    /// Takes what came of a command.
    pub fn end(&mut self, label: &str, success: bool, output: String)
        ensures
            final(self).deep_view() == old(self).deep_view().ended(label@, success, output@),
    {
        self.running = None;
        self.status = if success {
            cat2(label, " finished.")
        } else {
            cat2(label, " failed.")
        };
        self.output = output;
    }

    /// Takes what came of saving.
    pub fn save_ended(&mut self, path: &str, problem: &Option<String>)
        ensures
            final(self).deep_view() == old(self).deep_view().saved(path@, opt_text(*problem)),
    {
        match problem {
            None => {
                self.dirty = false;
                self.status = cat2("Saved to ", path);
            },
            Some(e) => {
                self.status = cat2("Not saved: ", e.as_str());
            },
        }
    }

    /// Takes what came of reading the file again.
    pub fn reload_ended(&mut self, problem: &Option<String>)
        ensures
            final(self).deep_view() == old(self).deep_view().reloaded(opt_text(*problem)),
    {
        match problem {
            None => {
                self.dirty = false;
                self.status = "Reloaded from disk.".to_owned();
            },
            Some(e) => {
                self.status = cat2("Could not reload: ", e.as_str());
            },
        }
    }
}

/// Only one command runs at a time: none is started while one is running, and
/// one that ends makes room for the next.
pub proof fn law_one_command_at_a_time(
    before: SessionView,
    label: Seq<char>,
    next: Seq<char>,
    output: Seq<char>,
)
    ensures
        before.may_start(true) ==> before.asked(label, true).running == Some(label),
        before.may_start(true) ==> !before.asked(label, true).may_start(true),
        before.running is Some ==> before.asked(next, true).running == before.running,
        before.ended(label, true, output).may_start(true),
        before.ended(label, false, output).may_start(true),
{
}

/// Changes that were not saved are not forgotten: only saving or reading the
/// file again settles them.
pub proof fn law_unsaved_changes_are_remembered(
    before: SessionView,
    label: Seq<char>,
    output: Seq<char>,
    path: Seq<char>,
    problem: Seq<char>,
)
    ensures
        before.asked(label, true).dirty == before.dirty,
        before.ended(label, true, output).dirty == before.dirty,
        before.saved(path, Some(problem)).dirty == before.dirty,
        before.reloaded(Some(problem)).dirty == before.dirty,
        !before.saved(path, None).dirty,
        !before.reloaded(None).dirty,
{
}

// ---------------------------------------------------------------------------
// Buttons
// ---------------------------------------------------------------------------

/// A button that runs a command.
#[derive(Debug, PartialEq, Eq)]
pub struct Button {
    pub text: String,
    /// What the command is called while it runs.
    pub label: String,
    pub args: Vec<String>,
}

pub struct ButtonView {
    pub text: Seq<char>,
    pub label: Seq<char>,
    pub args: Seq<Seq<char>>,
}

impl DeepView for Button {
    type V = ButtonView;

    open spec fn deep_view(&self) -> ButtonView {
        ButtonView { text: self.text@, label: self.label@, args: texts(self.args@) }
    }
}

/// The button for a destination.
pub open spec fn destination_button(destination: Seq<char>, own: Seq<char>) -> ButtonView {
    ButtonView {
        text: if destination == own {
            "Bring here ("@ + destination + ")"@
        } else {
            "Send to "@ + destination
        },
        label: "switch "@ + destination,
        args: seq!["switch"@, destination],
    }
}

pub fn button_for_destination(destination: &str, own: &str) -> (r: Button)
    ensures
        r.deep_view() == destination_button(destination@, own@),
{
    let text = if crate::text::same(destination, own) {
        cat3("Bring here (", destination, ")")
    } else {
        cat2("Send to ", destination)
    };
    let mut args: Vec<String> = Vec::new();
    args.push("switch".to_owned());
    args.push(destination.to_owned());
    assert(texts(args@) =~= seq!["switch"@, destination@]);
    Button { text, label: cat2("switch ", destination), args }
}

/// The buttons that sweep windows: one for each monitor, or one for the only
/// monitor where none is configured.
pub open spec fn sweep_button_list(monitors: Seq<Seq<char>>) -> Seq<ButtonView> {
    if monitors.len() == 0 {
        seq![ButtonView { text: "Sweep windows off"@, label: "sweep"@, args: seq!["sweep"@] }]
    } else {
        monitors.map_values(|m: Seq<char>| sweep_button(m))
    }
}

pub open spec fn sweep_button(monitor: Seq<char>) -> ButtonView {
    ButtonView {
        text: "Sweep windows off "@ + monitor,
        label: "sweep "@ + monitor,
        args: seq!["sweep"@, monitor],
    }
}

pub fn sweep_buttons(monitors: &[String]) -> (r: Vec<Button>)
    ensures
        r.deep_view() == sweep_button_list(texts(monitors@)),
{
    let mut out: Vec<Button> = Vec::new();
    if monitors.len() == 0 {
        let mut args: Vec<String> = Vec::new();
        args.push("sweep".to_owned());
        assert(texts(args@) =~= seq!["sweep"@]);
        out.push(
            Button { text: "Sweep windows off".to_owned(), label: "sweep".to_owned(), args },
        );
        assert(out.deep_view() =~= sweep_button_list(texts(monitors@)));
        return out;
    }
    let ghost want = sweep_button_list(texts(monitors@));
    let mut i: usize = 0;
    assert(out.deep_view() =~= want.take(0));
    while i < monitors.len()
        invariant
            i <= monitors@.len(),
            monitors@.len() > 0,
            want == sweep_button_list(texts(monitors@)),
            out.deep_view() == want.take(i as int),
        decreases monitors@.len() - i,
    {
        let monitor = monitors[i].as_str();
        assert(texts(monitors@)[i as int] == monitor@);
        let mut args: Vec<String> = Vec::new();
        args.push("sweep".to_owned());
        args.push(monitor.to_owned());
        assert(texts(args@) =~= seq!["sweep"@, monitor@]);
        let ghost had = out.deep_view();
        let b = Button {
            text: cat2("Sweep windows off ", monitor),
            label: cat2("sweep ", monitor),
            args,
        };
        assert(b.deep_view() == want[i as int]);
        out.push(b);
        assert(out.deep_view() =~= had.push(want[i as int]));
        i += 1;
    }
    assert(want.take(want.len() as int) =~= want);
    out
}

/// The command that runs an action, by name.
pub fn run_button(name: &str) -> (r: Button)
    ensures
        r.deep_view() == (ButtonView {
            text: "Run now"@,
            label: "run-action "@ + name@,
            args: seq!["run-action"@, name@],
        }),
{
    let mut args: Vec<String> = Vec::new();
    args.push("run-action".to_owned());
    args.push(name.to_owned());
    assert(texts(args@) =~= seq!["run-action"@, name@]);
    Button { text: "Run now".to_owned(), label: cat2("run-action ", name), args }
}

// ---------------------------------------------------------------------------
// Laws of editing
// ---------------------------------------------------------------------------

/// An edit does to its action what it says, and nothing else to it.
pub proof fn law_an_edit_does_what_it_says(
    actions: Seq<ActionView>,
    edit: EditView,
    destinations: Seq<Seq<char>>,
    monitors: Seq<Seq<char>>,
)
    requires
        0 <= about_action(edit) < actions.len(),
        edit !is NewAction && edit !is RemoveAction,
    ensures
        ({
            let at = about_action(edit);
            let was = actions[at];
            let now = edited(actions, edit, destinations, monitors)[at];
            match edit {
                EditView::Rename { action, name } => now.name == name && now.hotkey == was.hotkey
                    && now.steps == was.steps,
                EditView::Hotkey { action, line } => now.name == was.name && now.steps == was.steps
                    && (trimmed(line).len() == 0 ==> now.hotkey is None) && (trimmed(line).len() > 0
                    ==> now.hotkey == Some(line)),
                EditView::Step { action, step, to } => now.name == was.name && now.hotkey
                    == was.hotkey && now.steps.len() == was.steps.len() && forall|i: int|
                    0 <= i < now.steps.len() ==> #[trigger] now.steps[i] == (if i == step {
                        to
                    } else {
                        was.steps[i]
                    }),
                EditView::AddStep { action, kind } => now.name == was.name && now.hotkey
                    == was.hotkey && now.steps.len() == was.steps.len() + 1 && was.steps.is_prefix_of(
                    now.steps,
                ) && kind_of(now.steps.last()) == Some(kind),
                EditView::RemoveStep { action, step } => now.name == was.name && now.hotkey
                    == was.hotkey && (0 <= step < was.steps.len() ==> now.steps == was.steps.take(
                    step,
                ) + was.steps.skip(step + 1)) && (step < 0 || step >= was.steps.len() ==> now.steps
                    == was.steps),
                _ => true,
            }
        }),
{
    let at = about_action(edit);
    let was = actions[at];
    let now = edited(actions, edit, destinations, monitors)[at];
    match edit {
        EditView::RemoveStep { action, step } => {
            if 0 <= step < was.steps.len() {
                assert(now.steps =~= was.steps.take(step) + was.steps.skip(step + 1));
            }
        },
        EditView::AddStep { action, kind } => {
            assert(now.steps.subrange(0, was.steps.len() as int) =~= was.steps);
        },
        _ => {},
    }
}

/// Removing an action takes out that one, and leaves the others in order; a new
/// one comes last, under the next number, and switches to the first destination.
pub proof fn law_actions_come_last_and_leave_no_gap(
    actions: Seq<ActionView>,
    at: int,
    destinations: Seq<Seq<char>>,
    monitors: Seq<Seq<char>>,
)
    ensures
        ({
            let left = edited(
                actions,
                EditView::RemoveAction { action: at },
                destinations,
                monitors,
            );
            &&& 0 <= at < actions.len() ==> left == actions.take(at) + actions.skip(at + 1)
            &&& at < 0 || at >= actions.len() ==> left == actions
        }),
        ({
            let more = edited(actions, EditView::NewAction, destinations, monitors);
            &&& more.len() == actions.len() + 1
            &&& more.drop_last() == actions
            &&& more.last().name == "Action "@ + decimal(actions.len() + 1)
            &&& more.last().hotkey is None
            &&& destinations.len() > 0 ==> more.last().steps.len() == 1 && (
            more.last().steps[0] matches ActionStepView::Switch { destination } && destination
                == destinations[0])
            &&& destinations.len() == 0 ==> more.last().steps.len() == 0
        }),
{
    if 0 <= at < actions.len() {
        let left = edited(actions, EditView::RemoveAction { action: at }, destinations, monitors);
        assert(left =~= actions.take(at) + actions.skip(at + 1));
    }
    let more = edited(actions, EditView::NewAction, destinations, monitors);
    assert(more.drop_last() =~= actions);
}

/// A step becomes one of the kind that was picked: as it was where it is of
/// that kind already, else a fresh one for the first monitor or destination.
pub proof fn law_a_step_becomes_of_the_kind_picked(
    step: ActionStepView,
    kind: StepKind,
    destinations: Seq<Seq<char>>,
    monitors: Seq<Seq<char>>,
)
    ensures
        kind_of(with_kind(step, kind, destinations, monitors)) == Some(kind),
        kind_of(step) == Some(kind) ==> with_kind(step, kind, destinations, monitors) == step,
        kind_of(fresh_step(kind, destinations, monitors)) == Some(kind),
        monitors.len() > 0 ==> (fresh_step(kind, destinations, monitors) matches
            ActionStepView::Sweep { monitor } ==> monitor == Some(monitors[0])),
        monitors.len() > 0 ==> (fresh_step(kind, destinations, monitors) matches
            ActionStepView::Release { monitor } ==> monitor == Some(monitors[0])),
        monitors.len() > 0 ==> (fresh_step(kind, destinations, monitors) matches
            ActionStepView::Claim { monitor } ==> monitor == Some(monitors[0])),
        monitors.len() > 0 ==> (fresh_step(kind, destinations, monitors) matches
            ActionStepView::Primary { monitor } ==> monitor == Some(monitors[0])),
        destinations.len() > 0 ==> (fresh_step(kind, destinations, monitors) matches
            ActionStepView::Switch { destination } ==> destination == destinations[0]),
        kind is Switch <==> fresh_step(kind, destinations, monitors) is Switch,
        kind is Sweep <==> fresh_step(kind, destinations, monitors) is Sweep,
        kind is Release <==> fresh_step(kind, destinations, monitors) is Release,
        kind is Claim <==> fresh_step(kind, destinations, monitors) is Claim,
        kind is Primary <==> fresh_step(kind, destinations, monitors) is Primary,
        kind is Run <==> fresh_step(kind, destinations, monitors) is Run,
{
}

/// What a command came to is told, with what it printed; a command that cannot
/// start changes nothing but what is told.
pub proof fn law_a_session_tells_what_became_of_a_command(
    before: SessionView,
    label: Seq<char>,
    output: Seq<char>,
)
    ensures
        before.ended(label, true, output).output == output,
        before.ended(label, true, output).status == label + " finished."@,
        before.ended(label, false, output).status == label + " failed."@,
        before.asked(label, false).running == before.running,
        before.asked(label, false).output == before.output,
        before.running is Some ==> before.asked(label, true).output == before.output,
        before.may_start(true) ==> before.asked(label, true).output.len() == 0,
        before.may_start(true) <==> before.running is None,
        !before.may_start(false),
{
}

/// A button says and does the same: it switches to its destination, or sweeps
/// its monitor.
pub proof fn law_a_button_does_what_it_says(
    destination: Seq<char>,
    own: Seq<char>,
    monitors: Seq<Seq<char>>,
)
    ensures
        destination_button(destination, own).args == seq!["switch"@, destination],
        destination == own ==> destination_button(destination, own).text == "Bring here ("@
            + destination + ")"@,
        destination != own ==> destination_button(destination, own).text == "Send to "@
            + destination,
        monitors.len() == 0 ==> sweep_button_list(monitors).len() == 1
            && sweep_button_list(monitors)[0].args == seq!["sweep"@],
        monitors.len() > 0 ==> sweep_button_list(monitors).len() == monitors.len() && forall|i: int|
            0 <= i < monitors.len() ==> (#[trigger] sweep_button_list(monitors)[i]).args == seq![
                "sweep"@,
                monitors[i],
            ],
        picked(destination) == (if destination.len() > 0 {
            Some(destination)
        } else {
            None
        }),
{
}

/// An action is headed by its name, and by its number where it has none.
pub proof fn law_an_action_is_headed_by_its_name(index: nat, name: Seq<char>)
    ensures
        trimmed(name).len() > 0 ==> header_text(index, name) == name,
        trimmed(name).len() == 0 ==> has_text(header_text(index, name), decimal(index + 1)),
{
    lemma_has_text_between("(unnamed action "@, decimal(index + 1), ")"@);
}

} // verus!

//! Host-local configuration.
//!
//! The model is deliberately narrow: **monitors and their inputs**. Nothing
//! here knows what is plugged into an input, and nothing should. A monitor
//! input is a fact about the panel; "that one is the laptop" is a fact about
//! one person's desk, and the place to record it is the *name they give an
//! action*, not the vocabulary of the tool.
//!
//! Configuration is not portable between computers: backend ids and the
//! physical wiring differ per host, so each machine keeps its own file.

use vstd::prelude::*;

use crate::actions::{
    actions_problem, places, says_something, validate_all, Action, ActionStep, ActionStepView, ActionView,
};
use crate::digits::{dec, decimal};
use crate::seqs::{
    first_index, first_some, lemma_first_index, lemma_first_index_here, lemma_first_index_none,
    lemma_first_some_here, lemma_first_some_is_none, lemma_first_some_none,
};
use crate::text::{
    cat2, cat3, cat4, cat5, copy_opt, eq_ignore_case, is_blank, is_typed,
    law_a_blank_text_is_all_white_space, law_a_typed_name_is_the_whole_text,
    law_nothing_but_case_is_ignored, opt_text, same, same_ignoring_case, spelled_alike,
    trim_str, trimmed,
};
use crate::types::{code_text, standard_name, Evidence, InputCode};

verus! {

/// The only schema written. The one before it was organised around
/// destination computers.
pub const SCHEMA_VERSION: u32 = 2;

// ---------------------------------------------------------------------------
// Errors
// ---------------------------------------------------------------------------

#[derive(Debug, PartialEq, Eq)]
pub enum ConfigError {
    Missing(String),
    Read { path: String, detail: String },
    Write { path: String, detail: String },
    Parse { path: String, detail: String },
    Serialise(String),
    NoConfigDir,
    Invalid(String),
}

pub enum ConfigErrorView {
    Missing(Seq<char>),
    Read { path: Seq<char>, detail: Seq<char> },
    Write { path: Seq<char>, detail: Seq<char> },
    Parse { path: Seq<char>, detail: Seq<char> },
    Serialise(Seq<char>),
    NoConfigDir,
    Invalid(Seq<char>),
}

impl DeepView for ConfigError {
    type V = ConfigErrorView;

    open spec fn deep_view(&self) -> ConfigErrorView {
        match self {
            ConfigError::Missing(p) => ConfigErrorView::Missing(p@),
            ConfigError::Read { path, detail } => ConfigErrorView::Read {
                path: path@,
                detail: detail@,
            },
            ConfigError::Write { path, detail } => ConfigErrorView::Write {
                path: path@,
                detail: detail@,
            },
            ConfigError::Parse { path, detail } => ConfigErrorView::Parse {
                path: path@,
                detail: detail@,
            },
            ConfigError::Serialise(s) => ConfigErrorView::Serialise(s@),
            ConfigError::NoConfigDir => ConfigErrorView::NoConfigDir,
            ConfigError::Invalid(s) => ConfigErrorView::Invalid(s@),
        }
    }
}

impl ConfigErrorView {
    pub open spec fn message(self) -> Seq<char> {
        match self {
            ConfigErrorView::Missing(p) => "no configuration file at "@ + p
                + ". Run `desktop-switcher configure` first."@,
            ConfigErrorView::Read { path, detail } => "could not read "@ + path + ": "@ + detail,
            ConfigErrorView::Write { path, detail } => "could not write "@ + path + ": "@ + detail,
            ConfigErrorView::Parse { path, detail } => path + " is not valid TOML: "@ + detail,
            ConfigErrorView::Serialise(s) => "could not serialise configuration: "@ + s,
            ConfigErrorView::NoConfigDir => {
                "could not determine a configuration directory for this user"@
            },
            ConfigErrorView::Invalid(s) => "configuration is invalid: "@ + s,
        }
    }
}

impl ConfigError {
    pub fn to_string(&self) -> (r: String)
        ensures
            r@ == self.deep_view().message(),
    {
        match self {
            ConfigError::Missing(p) => cat3(
                "no configuration file at ",
                p.as_str(),
                ". Run `desktop-switcher configure` first.",
            ),
            ConfigError::Read { path, detail } => cat4(
                "could not read ",
                path.as_str(),
                ": ",
                detail.as_str(),
            ),
            ConfigError::Write { path, detail } => cat4(
                "could not write ",
                path.as_str(),
                ": ",
                detail.as_str(),
            ),
            ConfigError::Parse { path, detail } => cat3(
                path.as_str(),
                " is not valid TOML: ",
                detail.as_str(),
            ),
            ConfigError::Serialise(s) => cat2("could not serialise configuration: ", s.as_str()),
            ConfigError::NoConfigDir => {
                "could not determine a configuration directory for this user".to_owned()
            },
            ConfigError::Invalid(s) => cat2("configuration is invalid: ", s.as_str()),
        }
    }
}

// ---------------------------------------------------------------------------
// The schema
// ---------------------------------------------------------------------------

#[derive(Debug, Clone, Copy, PartialEq, Eq, Structural)]
pub enum BackendKind {
    /// Windows' own DDC/CI interface.
    Windows,
    /// The PowerToys Power Display command line.
    PowerToysCli,
    DdcutilCli,
    /// In-memory backend, for tests and dry runs only.
    Fake,
}

/// One input on one monitor.
#[derive(Debug, PartialEq, Eq)]
pub struct MonitorInput {
    pub input_code: InputCode,
    /// What to call it. Defaults to the monitor's own name for the input, but
    /// this is the natural place for "Laptop" or "Desktop": a label chosen by
    /// the person, not a concept the tool understands.
    pub label: Option<String>,
    /// How well this input is known to work. `reported` means the monitor
    /// listed it; only a real switch that someone watched makes it
    /// `user-confirmed`.
    pub verification: Evidence,
    pub note: Option<String>,
}

pub struct MonitorInputView {
    pub input_code: InputCode,
    pub label: Option<Seq<char>>,
    pub verification: Evidence,
    pub note: Option<Seq<char>>,
}

impl DeepView for MonitorInput {
    type V = MonitorInputView;

    open spec fn deep_view(&self) -> MonitorInputView {
        MonitorInputView {
            input_code: self.input_code,
            label: opt_text(self.label),
            verification: self.verification,
            note: opt_text(self.note),
        }
    }
}

impl Clone for MonitorInput {
    fn clone(&self) -> (r: Self)
        ensures
            r == *self,
    {
        MonitorInput {
            input_code: self.input_code,
            label: self.label.clone(),
            verification: self.verification,
            note: self.note.clone(),
        }
    }
}

impl MonitorInputView {
    pub open spec fn reported(code: InputCode, label: Option<Seq<char>>) -> Self {
        MonitorInputView { input_code: code, label, verification: Evidence::Reported, note: None }
    }

    /// The label, unless it is blank; else the standard name; else the code.
    pub open spec fn display_name(self) -> Seq<char> {
        if self.label is Some && trimmed(self.label->0).len() > 0 {
            self.label->0
        } else {
            match standard_name(self.input_code) {
                Some(n) => n,
                None => code_text(self.input_code),
            }
        }
    }
}

impl MonitorInput {
    pub fn reported(code: InputCode, label: Option<String>) -> (r: Self)
        ensures
            r.deep_view() == MonitorInputView::reported(code, opt_text(label)),
    {
        MonitorInput { input_code: code, label, verification: Evidence::Reported, note: None }
    }

    /// The name to show, falling back to the MCCS name and then the raw code.
    pub fn display_name(&self) -> (r: String)
        ensures
            r@ == self.deep_view().display_name(),
    {
        if let Some(l) = &self.label {
            if !is_blank(l.as_str()) {
                return l.clone();
            }
        }
        match self.input_code.standard_label() {
            Some(n) => n.to_owned(),
            None => self.input_code.to_string(),
        }
    }
}

#[derive(Debug, PartialEq, Eq)]
pub struct MonitorConfig {
    /// Stable identity, used to name this monitor on the command line and in
    /// actions. The EDID serial when the panel publishes one, because that
    /// follows the panel rather than the port.
    pub key: String,
    /// What to call it. Free text.
    pub label: String,
    /// Backend handle recorded at configure time; a port-scoped identifier.
    pub backend_id: String,
    pub serial: Option<String>,
    pub model: Option<String>,
    /// The inputs this monitor offers.
    pub inputs: Vec<MonitorInput>,
}

pub struct MonitorConfigView {
    pub key: Seq<char>,
    pub label: Seq<char>,
    pub backend_id: Seq<char>,
    pub serial: Option<Seq<char>>,
    pub model: Option<Seq<char>>,
    pub inputs: Seq<MonitorInputView>,
}

impl DeepView for MonitorConfig {
    type V = MonitorConfigView;

    open spec fn deep_view(&self) -> MonitorConfigView {
        MonitorConfigView {
            key: self.key@,
            label: self.label@,
            backend_id: self.backend_id@,
            serial: opt_text(self.serial),
            model: opt_text(self.model),
            inputs: self.inputs.deep_view(),
        }
    }
}

/// A copy of a list of inputs.
pub fn copy_inputs(v: &Vec<MonitorInput>) -> (r: Vec<MonitorInput>)
    ensures
        r.deep_view() == v.deep_view(),
{
    let r = v.clone();
    assert(r.deep_view() =~= v.deep_view());
    r
}

impl Clone for MonitorConfig {
    fn clone(&self) -> (r: Self)
        ensures
            r.deep_view() == self.deep_view(),
    {
        MonitorConfig {
            key: self.key.clone(),
            label: self.label.clone(),
            backend_id: self.backend_id.clone(),
            serial: copy_opt(&self.serial),
            model: copy_opt(&self.model),
            inputs: copy_inputs(&self.inputs),
        }
    }
}

/// Holds of the inputs with a given code.
pub open spec fn has_code(code: InputCode) -> spec_fn(MonitorInputView) -> bool {
    |i: MonitorInputView| i.input_code == code
}

impl MonitorConfigView {
    /// The first input with this code.
    pub open spec fn input(self, code: InputCode) -> Option<MonitorInputView> {
        match first_index(self.inputs, has_code(code)) {
            Some(i) => Some(self.inputs[i]),
            None => None,
        }
    }

    /// Whether a person who types `name` means this monitor: by its key, label
    /// or serial, whatever the case.
    pub open spec fn matches(self, name: Seq<char>) -> bool {
        let n = trimmed(name);
        ||| same_ignoring_case(self.key, n)
        ||| same_ignoring_case(self.label, n)
        ||| self.serial is Some && same_ignoring_case(self.serial->0, n)
    }
}

impl MonitorConfig {
    fn input_index(&self, code: InputCode) -> (r: Option<usize>)
        ensures
            match r {
                Some(i) => i < self.inputs@.len() && first_index(
                    self.deep_view().inputs,
                    has_code(code),
                ) == Some(i as int),
                None => first_index(self.deep_view().inputs, has_code(code)) is None,
            },
    {
        let ghost all = self.deep_view().inputs;
        let mut i: usize = 0;
        while i < self.inputs.len()
            invariant
                i <= self.inputs.len(),
                all == self.deep_view().inputs,
                forall|j: int| 0 <= j < i ==> !has_code(code)(#[trigger] all[j]),
            decreases self.inputs.len() - i,
        {
            if self.inputs[i].input_code == code {
                proof {
                    assert(has_code(code)(all[i as int]));
                    lemma_first_index_here(all, has_code(code), i as int);
                }
                return Some(i);
            }
            i += 1;
        }
        proof {
            lemma_first_index_none(all, has_code(code));
        }
        None
    }

    pub fn input(&self, code: InputCode) -> (r: Option<&MonitorInput>)
        ensures
            match r {
                Some(m) => self.deep_view().input(code) == Some(m.deep_view()),
                None => self.deep_view().input(code) is None,
            },
    {
        match self.input_index(code) {
            Some(i) => Some(&self.inputs[i]),
            None => None,
        }
    }

    /// The input with this code, to be changed in place. Everything else stays
    /// as it is.
    pub fn input_mut(&mut self, code: InputCode) -> (r: Option<&mut MonitorInput>)
        ensures
            match first_index(old(self).deep_view().inputs, has_code(code)) {
                Some(i) => r matches Some(m) && m.deep_view() == old(self).deep_view().inputs[i]
                    && final(self).deep_view() == (MonitorConfigView {
                    inputs: old(self).deep_view().inputs.update(i, final(m).deep_view()),
                    ..old(self).deep_view()
                }),
                None => r is None && *final(self) == *old(self),
            },
    {
        match self.input_index(code) {
            Some(i) => {
                let ghost before = self.deep_view();
                let m = &mut self.inputs[i];
                assert(after_borrow(self.inputs).deep_view() =~= before.inputs.update(
                    i as int,
                    final(m).deep_view(),
                ));
                Some(m)
            },
            None => None,
        }
    }

    /// Match a user-typed name against this monitor's key, label or serial.
    pub fn matches(&self, name: &str) -> (r: bool)
        ensures
            r == self.deep_view().matches(name@),
    {
        let n = trim_str(name);
        if eq_ignore_case(self.key.as_str(), n.as_str()) {
            return true;
        }
        if eq_ignore_case(self.label.as_str(), n.as_str()) {
            return true;
        }
        match &self.serial {
            Some(s) => eq_ignore_case(s.as_str(), n.as_str()),
            None => false,
        }
    }

    pub fn to_string(&self) -> (r: String)
        ensures
            r@ == self.label@ + " ("@ + self.key@ + ")"@,
    {
        cat4(self.label.as_str(), " (", self.key.as_str(), ")")
    }
}

#[derive(Debug, PartialEq, Eq)]
pub struct Config {
    pub schema_version: u32,
    /// This machine's name. Display only; filled from the system hostname.
    pub host: String,
    pub backend: BackendKind,
    /// Explicit path to the backend executable. Discovery is attempted when
    /// absent, but a pinned path is preferred for shortcuts, which run with a
    /// different environment than a shell.
    pub tool_path: Option<String>,
    pub timeout_seconds: u64,
    /// Pause after a write before attempting a read-back.
    pub settle_ms: u64,
    /// Repeats of the same request inside this window are ignored, so a held
    /// shortcut key does not issue a burst of writes.
    pub dedupe_ms: u64,
    pub monitors: Vec<MonitorConfig>,
    /// Named sequences of steps, each optionally bound to a hotkey. This is
    /// where a person records what a combination of inputs *means* to them.
    pub actions: Vec<Action>,
}

pub struct ConfigView {
    pub schema_version: u32,
    pub host: Seq<char>,
    pub backend: BackendKind,
    pub tool_path: Option<Seq<char>>,
    pub timeout_seconds: u64,
    pub settle_ms: u64,
    pub dedupe_ms: u64,
    pub monitors: Seq<MonitorConfigView>,
    pub actions: Seq<ActionView>,
}

impl DeepView for Config {
    type V = ConfigView;

    open spec fn deep_view(&self) -> ConfigView {
        ConfigView {
            schema_version: self.schema_version,
            host: self.host@,
            backend: self.backend,
            tool_path: opt_text(self.tool_path),
            timeout_seconds: self.timeout_seconds,
            settle_ms: self.settle_ms,
            dedupe_ms: self.dedupe_ms,
            monitors: self.monitors.deep_view(),
            actions: self.actions.deep_view(),
        }
    }
}

/// A copy of a list of monitors.
pub fn copy_monitors(v: &Vec<MonitorConfig>) -> (r: Vec<MonitorConfig>)
    ensures
        r.deep_view() == v.deep_view(),
{
    let r = v.clone();
    assert(r.deep_view() =~= v.deep_view());
    r
}

/// A copy of a list of actions.
pub fn copy_actions(v: &Vec<Action>) -> (r: Vec<Action>)
    ensures
        r.deep_view() == v.deep_view(),
{
    let r = v.clone();
    assert(r.deep_view() =~= v.deep_view());
    r
}

impl Clone for Config {
    fn clone(&self) -> (r: Self)
        ensures
            r.deep_view() == self.deep_view(),
    {
        Config {
            schema_version: self.schema_version,
            host: self.host.clone(),
            backend: self.backend,
            tool_path: copy_opt(&self.tool_path),
            timeout_seconds: self.timeout_seconds,
            settle_ms: self.settle_ms,
            dedupe_ms: self.dedupe_ms,
            monitors: copy_monitors(&self.monitors),
            actions: copy_actions(&self.actions),
        }
    }
}

pub const DEFAULT_TIMEOUT_SECONDS: u64 = 15;

pub const DEFAULT_SETTLE_MS: u64 = 1200;

pub const DEFAULT_DEDUPE_MS: u64 = 1500;

/// Holds of the monitors that a name means.
pub open spec fn named(name: Seq<char>) -> spec_fn(MonitorConfigView) -> bool {
    |m: MonitorConfigView| m.matches(name)
}

/// Holds of the actions with a name, whatever its case.
pub open spec fn called(name: Seq<char>) -> spec_fn(ActionView) -> bool {
    |a: ActionView| same_ignoring_case(a.name, trimmed(name))
}

impl ConfigView {
    /// A configuration without monitors and actions.
    pub open spec fn new(host: Seq<char>, backend: BackendKind) -> ConfigView {
        ConfigView {
            schema_version: SCHEMA_VERSION,
            host,
            backend,
            tool_path: None,
            timeout_seconds: DEFAULT_TIMEOUT_SECONDS,
            settle_ms: DEFAULT_SETTLE_MS,
            dedupe_ms: DEFAULT_DEDUPE_MS,
            monitors: Seq::empty(),
            actions: Seq::empty(),
        }
    }

    /// The first monitor that `name` means.
    pub open spec fn monitor(self, name: Seq<char>) -> Option<MonitorConfigView> {
        match first_index(self.monitors, named(name)) {
            Some(i) => Some(self.monitors[i]),
            None => None,
        }
    }

    /// The first action called `name`.
    pub open spec fn action(self, name: Seq<char>) -> Option<ActionView> {
        match first_index(self.actions, called(name)) {
            Some(i) => Some(self.actions[i]),
            None => None,
        }
    }
}

impl Config {
    pub fn new(host: &str, backend: BackendKind) -> (r: Self)
        ensures
            r.deep_view() == ConfigView::new(host@, backend),
    {
        let r = Config {
            schema_version: SCHEMA_VERSION,
            host: host.to_owned(),
            backend,
            tool_path: None,
            timeout_seconds: DEFAULT_TIMEOUT_SECONDS,
            settle_ms: DEFAULT_SETTLE_MS,
            dedupe_ms: DEFAULT_DEDUPE_MS,
            monitors: Vec::new(),
            actions: Vec::new(),
        };
        assert(r.deep_view().monitors =~= Seq::<MonitorConfigView>::empty());
        assert(r.deep_view().actions =~= Seq::<ActionView>::empty());
        r
    }

    fn monitor_index(&self, name: &str) -> (r: Option<usize>)
        ensures
            match r {
                Some(i) => i < self.monitors@.len() && first_index(
                    self.deep_view().monitors,
                    named(name@),
                ) == Some(i as int),
                None => first_index(self.deep_view().monitors, named(name@)) is None,
            },
    {
        let ghost all = self.deep_view().monitors;
        let mut i: usize = 0;
        while i < self.monitors.len()
            invariant
                i <= self.monitors.len(),
                all == self.deep_view().monitors,
                forall|j: int| 0 <= j < i ==> !named(name@)(#[trigger] all[j]),
            decreases self.monitors.len() - i,
        {
            if self.monitors[i].matches(name) {
                proof {
                    assert(named(name@)(all[i as int]));
                    lemma_first_index_here(all, named(name@), i as int);
                }
                return Some(i);
            }
            i += 1;
        }
        proof {
            lemma_first_index_none(all, named(name@));
        }
        None
    }

    /// Find a monitor by key, label or serial.
    pub fn monitor(&self, name: &str) -> (r: Option<&MonitorConfig>)
        ensures
            match r {
                Some(m) => self.deep_view().monitor(name@) == Some(m.deep_view()),
                None => self.deep_view().monitor(name@) is None,
            },
    {
        match self.monitor_index(name) {
            Some(i) => Some(&self.monitors[i]),
            None => None,
        }
    }

    /// The monitor that `name` means, to be changed in place. Everything else
    /// stays as it is.
    pub fn monitor_mut(&mut self, name: &str) -> (r: Option<&mut MonitorConfig>)
        ensures
            match first_index(old(self).deep_view().monitors, named(name@)) {
                Some(i) => r matches Some(m) && m.deep_view() == old(self).deep_view().monitors[i]
                    && final(self).deep_view() == (ConfigView {
                    monitors: old(self).deep_view().monitors.update(i, final(m).deep_view()),
                    ..old(self).deep_view()
                }),
                None => r is None && *final(self) == *old(self),
            },
    {
        match self.monitor_index(name) {
            Some(i) => {
                let ghost before = self.deep_view();
                let m = &mut self.monitors[i];
                assert(after_borrow(self.monitors).deep_view() =~= before.monitors.update(
                    i as int,
                    final(m).deep_view(),
                ));
                Some(m)
            },
            None => None,
        }
    }

    pub fn action(&self, name: &str) -> (r: Option<&Action>)
        ensures
            match r {
                Some(a) => self.deep_view().action(name@) == Some(a.deep_view()),
                None => self.deep_view().action(name@) is None,
            },
    {
        let wanted = trim_str(name);
        let ghost all = self.deep_view().actions;
        let mut i: usize = 0;
        while i < self.actions.len()
            invariant
                i <= self.actions.len(),
                wanted@ == trimmed(name@),
                all == self.deep_view().actions,
                forall|j: int| 0 <= j < i ==> !called(name@)(#[trigger] all[j]),
            decreases self.actions.len() - i,
        {
            if eq_ignore_case(self.actions[i].name.as_str(), wanted.as_str()) {
                proof {
                    assert(called(name@)(all[i as int]));
                    lemma_first_index_here(all, called(name@), i as int);
                }
                return Some(&self.actions[i]);
            }
            i += 1;
        }
        proof {
            lemma_first_index_none(all, called(name@));
        }
        None
    }
}

// ---------------------------------------------------------------------------
// Validation
// ---------------------------------------------------------------------------

/// An input of the same code stands before place `k`.
pub open spec fn listed_before(inputs: Seq<MonitorInputView>, k: int) -> bool {
    exists|l: int| 0 <= l < k && (#[trigger] inputs[l]).input_code == inputs[k].input_code
}

/// What is wrong with the input at place `k`.
pub open spec fn input_problem(m: MonitorConfigView, k: int) -> Option<Seq<char>> {
    if listed_before(m.inputs, k) {
        Some(
            "`"@ + m.label + "` lists input "@ + code_text(m.inputs[k].input_code) + " twice"@,
        )
    } else {
        None
    }
}

/// What is wrong with the monitor at place `i`, given those before it.
pub open spec fn monitor_problem(monitors: Seq<MonitorConfigView>, i: int) -> Option<Seq<char>> {
    let m = monitors[i];
    if trimmed(m.key).len() == 0 {
        Some("a monitor has no key"@)
    } else if exists|j: int| 0 <= j < i && same_ignoring_case((#[trigger] monitors[j]).key, m.key) {
        Some("two monitors share the key `"@ + m.key + "`"@)
    } else if exists|j: int| 0 <= j < i && (#[trigger] monitors[j]).backend_id == m.backend_id {
        Some(
            "two monitors share the connection `"@ + m.backend_id + "`; re-run `configure`"@,
        )
    } else {
        first_some(places(m.inputs.len()), |k: int| input_problem(m, k))
    }
}

/// What is wrong with a step: the monitor it names is not configured.
pub open spec fn reference_problem(
    config: ConfigView,
    action: Seq<char>,
    step: ActionStepView,
) -> Option<Seq<char>> {
    match step.monitor_name() {
        None => None,
        Some(name) => if name.len() > 0 && config.monitor(name) is None {
            Some(
                "action `"@ + action + "` refers to monitor `"@ + name
                    + "`, which is not configured"@,
            )
        } else {
            None
        },
    }
}

pub open spec fn action_reference_problem(config: ConfigView, action: ActionView) -> Option<
    Seq<char>,
> {
    first_some(action.steps, |s: ActionStepView| reference_problem(config, action.name, s))
}

/// The first thing that is wrong with a configuration.
pub open spec fn config_problem(config: ConfigView) -> Option<Seq<char>> {
    if config.schema_version != SCHEMA_VERSION {
        Some(
            "schema_version is "@ + decimal(config.schema_version as nat)
                + ", this build understands "@ + decimal(SCHEMA_VERSION as nat),
        )
    } else {
        match first_some(
            places(config.monitors.len()),
            |i: int| monitor_problem(config.monitors, i),
        ) {
            Some(p) => Some(p),
            None => match first_some(
                config.actions,
                |a: ActionView| action_reference_problem(config, a),
            ) {
                Some(p) => Some(p),
                None => actions_problem(config.actions),
            },
        }
    }
}

fn check_inputs(m: &MonitorConfig) -> (r: Option<String>)
    ensures
        opt_text(r) == first_some(
            places(m.deep_view().inputs.len()),
            |k: int| input_problem(m.deep_view(), k),
        ),
{
    let ghost v = m.deep_view();
    let ghost at = places(v.inputs.len());
    let ghost f = |k: int| input_problem(v, k);
    let mut k: usize = 0;
    while k < m.inputs.len()
        invariant
            k <= m.inputs.len(),
            v == m.deep_view(),
            at == places(v.inputs.len()),
            f == (|k: int| input_problem(v, k)),
            forall|j: int| 0 <= j < k ==> f(#[trigger] at[j]) is None,
        decreases m.inputs.len() - k,
    {
        let code = m.inputs[k].input_code;
        let mut l: usize = 0;
        assert(v.inputs[k as int].input_code == code);
        assert(at[k as int] == k);
        while l < k
            invariant
                l <= k < m.inputs.len(),
                v == m.deep_view(),
                at == places(v.inputs.len()),
                f == (|k: int| input_problem(v, k)),
                code == v.inputs[k as int].input_code,
                at[k as int] == k,
                forall|j: int| 0 <= j < k ==> f(#[trigger] at[j]) is None,
                forall|j: int| 0 <= j < l ==> (#[trigger] v.inputs[j]).input_code != code,
            decreases k - l,
        {
            if m.inputs[l].input_code == code {
                assert(v.inputs[l as int].input_code == v.inputs[k as int].input_code);
                proof {
                    lemma_first_some_here(at, f, k as int);
                }
                return Some(
                    cat5(
                        "`",
                        m.label.as_str(),
                        "` lists input ",
                        code.to_string().as_str(),
                        " twice",
                    ),
                );
            }
            l += 1;
        }
        assert(!listed_before(v.inputs, k as int));
        k += 1;
    }
    proof {
        lemma_first_some_none(at, f);
    }
    None
}

fn check_monitor(monitors: &Vec<MonitorConfig>, i: usize) -> (r: Option<String>)
    requires
        i < monitors.len(),
    ensures
        opt_text(r) == monitor_problem(monitors.deep_view(), i as int),
{
    let ghost all = monitors.deep_view();
    let m = &monitors[i];
    assert(all[i as int] == m.deep_view());
    if is_blank(m.key.as_str()) {
        return Some("a monitor has no key".to_owned());
    }
    let mut j: usize = 0;
    while j < i
        invariant
            j <= i < monitors.len(),
            all == monitors.deep_view(),
            m.deep_view() == all[i as int],
            trimmed(m.key@).len() > 0,
            forall|k: int| 0 <= k < j ==> !same_ignoring_case((#[trigger] all[k]).key, m.key@),
        decreases i - j,
    {
        if eq_ignore_case(monitors[j].key.as_str(), m.key.as_str()) {
            assert(same_ignoring_case(all[j as int].key, m.key@));
            return Some(cat3("two monitors share the key `", m.key.as_str(), "`"));
        }
        j += 1;
    }
    let mut j: usize = 0;
    while j < i
        invariant
            j <= i < monitors.len(),
            all == monitors.deep_view(),
            m.deep_view() == all[i as int],
            trimmed(m.key@).len() > 0,
            forall|k: int| 0 <= k < i ==> !same_ignoring_case((#[trigger] all[k]).key, m.key@),
            forall|k: int| 0 <= k < j ==> (#[trigger] all[k]).backend_id != m.backend_id@,
        decreases i - j,
    {
        if same(monitors[j].backend_id.as_str(), m.backend_id.as_str()) {
            assert(all[j as int].backend_id == m.backend_id@);
            return Some(
                cat3(
                    "two monitors share the connection `",
                    m.backend_id.as_str(),
                    "`; re-run `configure`",
                ),
            );
        }
        j += 1;
    }
    check_inputs(m)
}

impl Config {
    fn check_reference(&self, action: &str, step: &ActionStep) -> (r: Option<String>)
        ensures
            opt_text(r) == reference_problem(self.deep_view(), action@, step.deep_view()),
    {
        match step.monitor_name() {
            None => None,
            Some(name) => {
                if name.unicode_len() > 0 && self.monitor(name).is_none() {
                    Some(
                        cat5(
                            "action `",
                            action,
                            "` refers to monitor `",
                            name,
                            "`, which is not configured",
                        ),
                    )
                } else {
                    None
                }
            },
        }
    }

    fn check_action_references(&self, action: &Action) -> (r: Option<String>)
        ensures
            opt_text(r) == action_reference_problem(self.deep_view(), action.deep_view()),
    {
        let ghost v = self.deep_view();
        let ghost steps = action.deep_view().steps;
        let ghost f = |s: ActionStepView| reference_problem(v, action.deep_view().name, s);
        let mut i: usize = 0;
        while i < action.steps.len()
            invariant
                i <= action.steps.len(),
                v == self.deep_view(),
                steps == action.deep_view().steps,
                f == (|s: ActionStepView| reference_problem(v, action.deep_view().name, s)),
                forall|j: int| 0 <= j < i ==> f(#[trigger] steps[j]) is None,
            decreases action.steps.len() - i,
        {
            if let Some(p) = self.check_reference(action.name.as_str(), &action.steps[i]) {
                proof {
                    lemma_first_some_here(steps, f, i as int);
                }
                return Some(p);
            }
            i += 1;
        }
        proof {
            lemma_first_some_none(steps, f);
        }
        None
    }

    fn check_monitors(&self) -> (r: Option<String>)
        ensures
            opt_text(r) == first_some(
                places(self.deep_view().monitors.len()),
                |i: int| monitor_problem(self.deep_view().monitors, i),
            ),
    {
        let ghost all = self.deep_view().monitors;
        let ghost at = places(all.len());
        let ghost f = |i: int| monitor_problem(all, i);
        let mut i: usize = 0;
        while i < self.monitors.len()
            invariant
                i <= self.monitors.len(),
                all == self.deep_view().monitors,
                at == places(all.len()),
                f == (|i: int| monitor_problem(all, i)),
                forall|j: int| 0 <= j < i ==> f(#[trigger] at[j]) is None,
            decreases self.monitors.len() - i,
        {
            assert(at[i as int] == i);
            if let Some(p) = check_monitor(&self.monitors, i) {
                proof {
                    lemma_first_some_here(at, f, i as int);
                }
                return Some(p);
            }
            i += 1;
        }
        proof {
            lemma_first_some_none(at, f);
        }
        None
    }

    fn check_references(&self) -> (r: Option<String>)
        ensures
            opt_text(r) == first_some(
                self.deep_view().actions,
                |a: ActionView| action_reference_problem(self.deep_view(), a),
            ),
    {
        let ghost v = self.deep_view();
        let ghost all = v.actions;
        let ghost f = |a: ActionView| action_reference_problem(v, a);
        let mut i: usize = 0;
        while i < self.actions.len()
            invariant
                i <= self.actions.len(),
                v == self.deep_view(),
                all == v.actions,
                f == (|a: ActionView| action_reference_problem(v, a)),
                forall|j: int| 0 <= j < i ==> f(#[trigger] all[j]) is None,
            decreases self.actions.len() - i,
        {
            if let Some(p) = self.check_action_references(&self.actions[i]) {
                proof {
                    lemma_first_some_here(all, f, i as int);
                }
                return Some(p);
            }
            i += 1;
        }
        proof {
            lemma_first_some_none(all, f);
        }
        None
    }

    /// Refuses a configuration that would fail at the worst moment, when a
    /// hotkey is pressed.
    pub fn validate(&self) -> (r: Result<(), ConfigError>)
        ensures
            match r {
                Ok(_) => config_problem(self.deep_view()) is None,
                Err(e) => config_problem(self.deep_view()) is Some && e.deep_view()
                    == ConfigErrorView::Invalid(config_problem(self.deep_view())->0),
            },
    {
        if self.schema_version != SCHEMA_VERSION {
            return Err(
                ConfigError::Invalid(
                    cat4(
                        "schema_version is ",
                        dec(self.schema_version as u64).as_str(),
                        ", this build understands ",
                        dec(SCHEMA_VERSION as u64).as_str(),
                    ),
                ),
            );
        }
        if let Some(p) = self.check_monitors() {
            return Err(ConfigError::Invalid(p));
        }
        if let Some(p) = self.check_references() {
            return Err(ConfigError::Invalid(p));
        }
        match validate_all(self.actions.as_slice()) {
            Ok(_) => Ok(()),
            Err(p) => Err(ConfigError::Invalid(p)),
        }
    }
}

/// In a configuration that passes, every monitor can be named and told apart:
/// no key is blank, no two monitors share a key (whatever its case) or a
/// connection, no monitor lists an input twice, and every monitor that a step
/// names is configured.
pub proof fn law_a_valid_configuration_is_unambiguous(config: ConfigView)
    requires
        config_problem(config) is None,
    ensures
        config.schema_version == SCHEMA_VERSION,
        forall|i: int|
            0 <= i < config.monitors.len() ==> trimmed((#[trigger] config.monitors[i]).key).len()
                > 0,
        forall|i: int, j: int|
            0 <= i < j < config.monitors.len() ==> !same_ignoring_case(
                (#[trigger] config.monitors[i]).key,
                (#[trigger] config.monitors[j]).key,
            ) && config.monitors[i].backend_id != config.monitors[j].backend_id,
        forall|i: int, k: int, l: int|
            #![trigger config.monitors[i].inputs[k], config.monitors[i].inputs[l]]
            0 <= i < config.monitors.len() && 0 <= l < k < config.monitors[i].inputs.len()
                ==> config.monitors[i].inputs[l].input_code
                != config.monitors[i].inputs[k].input_code,
        forall|a: int, s: int|
            #![trigger config.actions[a].steps[s]]
            0 <= a < config.actions.len() && 0 <= s < config.actions[a].steps.len() ==> (
            config.actions[a].steps[s].monitor_name() matches Some(name) ==> (name.len() > 0
                ==> config.monitor(name) is Some)),
        actions_problem(config.actions) is None,
{
    let at = places(config.monitors.len());
    let f = |i: int| monitor_problem(config.monitors, i);
    lemma_first_some_is_none(at, f);
    assert forall|i: int| 0 <= i < config.monitors.len() implies monitor_problem(
        config.monitors,
        i,
    ) is None && trimmed((#[trigger] config.monitors[i]).key).len() > 0 by {
        assert(f(at[i]) is None);
    }
    assert forall|i: int, j: int| 0 <= i < j < config.monitors.len() implies !same_ignoring_case(
        (#[trigger] config.monitors[i]).key,
        (#[trigger] config.monitors[j]).key,
    ) && config.monitors[i].backend_id != config.monitors[j].backend_id by {
        assert(monitor_problem(config.monitors, j) is None);
    }
    assert forall|i: int, k: int, l: int|
        #![trigger config.monitors[i].inputs[k], config.monitors[i].inputs[l]]
        0 <= i < config.monitors.len() && 0 <= l < k
            < config.monitors[i].inputs.len() implies config.monitors[i].inputs[l].input_code
        != config.monitors[i].inputs[k].input_code by {
        assert(monitor_problem(config.monitors, i) is None);
        let m = config.monitors[i];
        let g = |k: int| input_problem(m, k);
        lemma_first_some_is_none(places(m.inputs.len()), g);
        assert(g(places(m.inputs.len())[k]) is None);
        assert(!listed_before(m.inputs, k));
    }
    let h = |a: ActionView| action_reference_problem(config, a);
    lemma_first_some_is_none(config.actions, h);
    assert forall|a: int, s: int|
        #![trigger config.actions[a].steps[s]]
        0 <= a < config.actions.len() && 0 <= s < config.actions[a].steps.len() implies (
    config.actions[a].steps[s].monitor_name() matches Some(name) ==> (name.len() > 0
        ==> config.monitor(name) is Some)) by {
        assert(h(config.actions[a]) is None);
        let g = |st: ActionStepView| reference_problem(config, config.actions[a].name, st);
        lemma_first_some_is_none(config.actions[a].steps, g);
        assert(g(config.actions[a].steps[s]) is None);
    }
}

/// A monitor is the one that was typed: its key, its label or its serial is
/// what was typed, all of it.
pub open spec fn is_asked_for(m: MonitorConfigView, typed: Seq<char>) -> bool {
    ||| is_typed(m.key, typed)
    ||| is_typed(m.label, typed)
    ||| m.serial matches Some(serial) && is_typed(serial, typed)
}

/// A monitor answers to its key, its label and its serial in full, and to
/// nothing else.
pub proof fn law_a_monitor_answers_to_its_full_names(m: MonitorConfigView, typed: Seq<char>)
    ensures
        m.matches(typed) <==> is_asked_for(m, typed),
{
    law_a_typed_name_is_the_whole_text(m.key, typed);
    law_a_typed_name_is_the_whole_text(m.label, typed);
    if let Some(serial) = m.serial {
        law_a_typed_name_is_the_whole_text(serial, typed);
    }
}

/// The monitor that a name stands for is the first one that answers to it, and
/// there is one wherever any does.
pub proof fn law_a_name_finds_the_first_that_answers(config: ConfigView, typed: Seq<char>)
    ensures
        match config.monitor(typed) {
            Some(m) => exists|i: int|
                0 <= i < config.monitors.len() && #[trigger] config.monitors[i] == m
                    && is_asked_for(m, typed) && forall|j: int|
                    0 <= j < i ==> !is_asked_for(#[trigger] config.monitors[j], typed),
            None => forall|j: int|
                0 <= j < config.monitors.len() ==> !is_asked_for(
                    #[trigger] config.monitors[j],
                    typed,
                ),
        },
{
    let ms = config.monitors;
    let p = named(typed);
    lemma_first_index(ms, p);
    assert forall|j: int| 0 <= j < ms.len() implies p(#[trigger] ms[j]) == is_asked_for(
        ms[j],
        typed,
    ) by {
        law_a_monitor_answers_to_its_full_names(ms[j], typed);
    }
    if let Some(i) = first_index(ms, p) {
        assert(ms[i] == config.monitor(typed)->0);
        assert forall|j: int| 0 <= j < i implies !is_asked_for(#[trigger] ms[j], typed) by {
            assert(!p(ms[j]));
        }
    }
}

/// The action that a name stands for is the first one called so in full, and
/// there is one wherever any is.
pub proof fn law_an_action_answers_to_its_full_name(config: ConfigView, typed: Seq<char>)
    ensures
        match config.action(typed) {
            Some(a) => exists|i: int|
                0 <= i < config.actions.len() && #[trigger] config.actions[i] == a && is_typed(
                    a.name,
                    typed,
                ) && forall|j: int|
                    0 <= j < i ==> !is_typed((#[trigger] config.actions[j]).name, typed),
            None => forall|j: int|
                0 <= j < config.actions.len() ==> !is_typed(
                    (#[trigger] config.actions[j]).name,
                    typed,
                ),
        },
{
    let all = config.actions;
    let p = called(typed);
    lemma_first_index(all, p);
    assert forall|j: int| 0 <= j < all.len() implies p(#[trigger] all[j]) == is_typed(
        all[j].name,
        typed,
    ) by {
        law_a_typed_name_is_the_whole_text(all[j].name, typed);
    }
    if let Some(i) = first_index(all, p) {
        assert(all[i] == config.action(typed)->0);
        assert forall|j: int| 0 <= j < i implies !is_typed((#[trigger] all[j]).name, typed) by {
            assert(!p(all[j]));
        }
    }
}

/// An input of a monitor is found by its code, where one has it, and it is the
/// first that has it.
pub proof fn law_an_input_is_found_by_its_code(m: MonitorConfigView, code: InputCode)
    ensures
        match m.input(code) {
            Some(input) => input.input_code == code && exists|i: int|
                0 <= i < m.inputs.len() && #[trigger] m.inputs[i] == input && forall|j: int|
                    0 <= j < i ==> (#[trigger] m.inputs[j]).input_code != code,
            None => forall|j: int|
                0 <= j < m.inputs.len() ==> (#[trigger] m.inputs[j]).input_code != code,
        },
{
    let p = has_code(code);
    lemma_first_index(m.inputs, p);
    if let Some(i) = first_index(m.inputs, p) {
        assert(m.inputs[i] == m.input(code)->0);
        assert forall|j: int| 0 <= j < i implies (#[trigger] m.inputs[j]).input_code != code by {
            assert(!p(m.inputs[j]));
        }
    } else {
        assert forall|j: int| 0 <= j < m.inputs.len() implies (#[trigger] m.inputs[j]).input_code
            != code by {
            assert(!p(m.inputs[j]));
        }
    }
}

/// A configuration is valid: it is of the current kind, its monitors have keys
/// and are told apart by them and by their connections, no input is listed
/// twice, every step names a monitor that is configured, and the actions may be
/// saved together.
pub open spec fn is_sound(config: ConfigView) -> bool {
    &&& config.schema_version == SCHEMA_VERSION
    &&& forall|i: int|
        0 <= i < config.monitors.len() ==> says_something((#[trigger] config.monitors[i]).key)
    &&& forall|i: int, j: int|
        0 <= i < j < config.monitors.len() ==> !spelled_alike(
            (#[trigger] config.monitors[i]).key,
            (#[trigger] config.monitors[j]).key,
        ) && config.monitors[i].backend_id != config.monitors[j].backend_id
    &&& forall|i: int, k: int, l: int|
        #![trigger config.monitors[i].inputs[k], config.monitors[i].inputs[l]]
        0 <= i < config.monitors.len() && 0 <= l < k < config.monitors[i].inputs.len()
            ==> config.monitors[i].inputs[l].input_code != config.monitors[i].inputs[k].input_code
    &&& forall|a: int, s: int|
        #![trigger config.actions[a].steps[s]]
        0 <= a < config.actions.len() && 0 <= s < config.actions[a].steps.len() ==> (
        config.actions[a].steps[s].monitor_name() matches Some(name) ==> (name.len() > 0
            ==> exists|i: int|
            0 <= i < config.monitors.len() && is_asked_for(#[trigger] config.monitors[i], name)))
    &&& actions_problem(config.actions) is None
}

/// A configuration is refused exactly where it is not sound.
pub proof fn law_a_configuration_is_refused_when_it_is_unsound(config: ConfigView)
    ensures
        config_problem(config) is None <==> is_sound(config),
{
    let ms = config.monitors;
    assert forall|a: Seq<char>, b: Seq<char>|
        #[trigger] same_ignoring_case(a, b) == spelled_alike(a, b) by {
        law_nothing_but_case_is_ignored(a, b);
    }
    assert forall|name: Seq<char>|
        (#[trigger] config.monitor(name) is Some) == exists|i: int|
            0 <= i < ms.len() && is_asked_for(#[trigger] ms[i], name) by {
        law_a_name_finds_the_first_that_answers(config, name);
    }
    if config_problem(config) is None {
        law_a_valid_configuration_is_unambiguous(config);
        assert forall|i: int| 0 <= i < ms.len() implies says_something(
            (#[trigger] ms[i]).key,
        ) by {
            law_a_blank_text_is_all_white_space(ms[i].key);
        }
        assert forall|i: int, j: int| 0 <= i < j < ms.len() implies !spelled_alike(
            (#[trigger] ms[i]).key,
            (#[trigger] ms[j]).key,
        ) && ms[i].backend_id != ms[j].backend_id by {
            law_nothing_but_case_is_ignored(ms[i].key, ms[j].key);
        }
        assert forall|a: int, s: int|
            #![trigger config.actions[a].steps[s]]
            0 <= a < config.actions.len() && 0 <= s < config.actions[a].steps.len() implies (
        config.actions[a].steps[s].monitor_name() matches Some(name) ==> (name.len() > 0
            ==> exists|i: int| 0 <= i < ms.len() && is_asked_for(#[trigger] ms[i], name))) by {
            if let Some(name) = config.actions[a].steps[s].monitor_name() {
                law_a_name_finds_the_first_that_answers(config, name);
            }
        }
    }
    if is_sound(config) {
        let at = places(ms.len());
        let f = |i: int| monitor_problem(ms, i);
        assert forall|i: int| 0 <= i < at.len() implies f(#[trigger] at[i]) is None by {
            let m = ms[i];
            law_a_blank_text_is_all_white_space(m.key);
            assert forall|j: int| 0 <= j < i implies !same_ignoring_case(
                (#[trigger] ms[j]).key,
                m.key,
            ) by {
                law_nothing_but_case_is_ignored(ms[j].key, ms[i].key);
            }
            let g = |k: int| input_problem(m, k);
            let ks = places(m.inputs.len());
            assert forall|k: int| 0 <= k < ks.len() implies g(#[trigger] ks[k]) is None by {
                assert forall|l: int| 0 <= l < k implies (#[trigger] m.inputs[l]).input_code
                    != m.inputs[k].input_code by {
                    assert(ms[i].inputs[l].input_code != ms[i].inputs[k].input_code);
                }
            }
            lemma_first_some_none(ks, g);
        }
        lemma_first_some_none(at, f);
        let h = |a: ActionView| action_reference_problem(config, a);
        assert forall|a: int| 0 <= a < config.actions.len() implies h(
            #[trigger] config.actions[a],
        ) is None by {
            let action = config.actions[a];
            let g = |st: ActionStepView| reference_problem(config, action.name, st);
            assert forall|s: int| 0 <= s < action.steps.len() implies g(
                #[trigger] action.steps[s],
            ) is None by {
                assert(config.actions[a].steps[s] == action.steps[s]);
                if let Some(name) = action.steps[s].monitor_name() {
                    law_a_name_finds_the_first_that_answers(config, name);
                }
            }
            lemma_first_some_none(action.steps, g);
        }
        lemma_first_some_none(config.actions, h);
    }
}

/// An input is shown under the name it was given, else under its standard name,
/// else under its code.
pub proof fn law_an_input_is_shown_by_name(input: MonitorInputView)
    ensures
        input.label matches Some(label) && says_something(label) ==> input.display_name()
            == input.label->0,
        !(input.label matches Some(label) && says_something(label)) ==> input.display_name()
            == match standard_name(input.input_code) {
            Some(name) => name,
            None => code_text(input.input_code),
        },
{
    if let Some(label) = input.label {
        law_a_blank_text_is_all_white_space(label);
    }
}

} // verus!

//! Upgrading a configuration file of the first schema, which was organised
//! around "destination computers".
//!
//! Each destination becomes an *action* of the same name. That is the whole
//! conceptual shift made concrete: the tool stops believing in computers, and
//! what used to be built-in vocabulary becomes a label the user owns and can
//! rename or delete.

use vstd::prelude::*;

use crate::actions::{Action, ActionStep, ActionStepView, ActionView};
use crate::config::{
    BackendKind, Config, ConfigView, MonitorConfig, MonitorConfigView, MonitorInput,
    MonitorInputView, SCHEMA_VERSION,
};
use crate::document::{
    document_of, entry_trees, lemma_table_tree, read_document, trees, Node, NodeView,
};
use crate::seqs::{
    lemma_filter_members, lemma_filter_take, lemma_filter_take_none, lemma_sorted_texts_contains,
    sort_texts, sorted_texts,
};
use crate::text::{
    cat3, eq_ignore_case, has_text_in, law_nothing_but_case_is_ignored, same, same_ignoring_case,
    spelled_alike, texts,
};
use crate::types::{
    code_in, evidence_name, opt_str, Evidence, InputCode, InputCodeParseErrorView,
};

verus! {

// ---------------------------------------------------------------------------
// Names that stand for variants
// ---------------------------------------------------------------------------

/// How a name without contents may be written: as the text itself, or as the
/// one key of a table with nothing under it.
pub open spec fn variant_name(v: NodeView) -> Result<Seq<char>, Seq<char>> {
    match v {
        NodeView::Text(s) => Ok(s),
        NodeView::Table(entries) => if entries.len() == 0 {
            Err("wanted exactly 1 element, found 0 elements\n"@)
        } else if entries.len() > 1 {
            Err("wanted exactly 1 element, more than 1 element\n"@)
        } else {
            Ok(entries[0].0)
        },
        _ => Err("invalid type: unit variant, expected string only\n"@),
    }
}

/// What is wrong with what stands under a name, if anything is.
pub open spec fn variant_contents_problem(v: NodeView) -> Option<Seq<char>> {
    match v {
        NodeView::Table(entries) => match entries[0].1 {
            NodeView::Array(items) => if items.len() == 0 {
                None
            } else {
                Some("expected empty array\n"@)
            },
            NodeView::Table(inner) => if inner.len() == 0 {
                None
            } else {
                Some("expected empty table\n"@)
            },
            NodeView::Text(_) => Some("expected table, found string\n"@),
            NodeView::Integer(_) => Some("expected table, found integer\n"@),
            NodeView::Other { kind } => Some("expected table, found "@ + kind + "\n"@),
        },
        _ => None,
    }
}

pub open spec fn evidence_named(name: Seq<char>) -> Option<Evidence> {
    if name == "unknown"@ {
        Some(Evidence::Unknown)
    } else if name == "reported"@ {
        Some(Evidence::Reported)
    } else if name == "read-confirmed"@ {
        Some(Evidence::ReadConfirmed)
    } else if name == "write-confirmed"@ {
        Some(Evidence::WriteConfirmed)
    } else if name == "user-confirmed"@ {
        Some(Evidence::UserConfirmed)
    } else {
        None
    }
}

/// The backend a file means by a name. The built-in Windows backend stands in
/// for the PowerToys one: the ids are the same, so every binding carries over.
pub open spec fn backend_named(name: Seq<char>) -> Option<BackendKind> {
    if name == "windows"@ || name == "powertoys-cli"@ {
        Some(BackendKind::Windows)
    } else if name == "ddcutil-cli"@ {
        Some(BackendKind::DdcutilCli)
    } else if name == "fake"@ {
        Some(BackendKind::Fake)
    } else {
        None
    }
}

/// The evidence a file records of an input; none is known of one whose record
/// cannot be read.
pub open spec fn evidence_at(mapping: NodeView) -> Evidence {
    match mapping.get("verification"@) {
        Some(v) => match variant_name(v) {
            Ok(name) => match evidence_named(name) {
                Some(e) if variant_contents_problem(v) is None => e,
                _ => Evidence::Unknown,
            },
            Err(_) => Evidence::Unknown,
        },
        None => Evidence::Unknown,
    }
}

/// The backend a file names, the in-memory one if it names none, or what is
/// wrong with the name.
pub open spec fn backend_at(file: NodeView) -> Result<BackendKind, Seq<char>> {
    match file.get("backend"@) {
        Some(v) => match variant_name(v) {
            Ok(name) => match backend_named(name) {
                Some(kind) => match variant_contents_problem(v) {
                    Some(problem) => Err(problem),
                    None => Ok(kind),
                },
                None => Err(
                    "unknown variant `"@ + name
                        + "`, expected one of `windows`, `powertoys-cli`, `ddcutil-cli`, `fake`\n"@,
                ),
            },
            Err(problem) => Err(problem),
        },
        None => Ok(BackendKind::Fake),
    }
}

pub open spec fn name_result(r: Result<&str, String>) -> Result<Seq<char>, Seq<char>> {
    match r {
        Ok(s) => Ok(s@),
        Err(e) => Err(e@),
    }
}

fn name_of_variant(v: &Node) -> (r: Result<&str, String>)
    ensures
        name_result(r) == variant_name(v.tree()),
{
    match v {
        Node::Text(s) => Ok(s.as_str()),
        Node::Table(entries) => {
            proof {
                lemma_table_tree(*entries);
            }
            if entries.len() == 0 {
                Err("wanted exactly 1 element, found 0 elements\n".to_owned())
            } else if entries.len() > 1 {
                Err("wanted exactly 1 element, more than 1 element\n".to_owned())
            } else {
                Ok(entries[0].0.as_str())
            }
        },
        _ => Err("invalid type: unit variant, expected string only\n".to_owned()),
    }
}

fn problem_under_variant(v: &Node) -> (r: Option<String>)
    requires
        variant_name(v.tree()) is Ok,
    ensures
        crate::text::opt_text(r) == variant_contents_problem(v.tree()),
{
    match v {
        Node::Table(entries) => {
            proof {
                lemma_table_tree(*entries);
            }
            match &entries[0].1 {
                Node::Array(items) => {
                    if items.len() == 0 {
                        None
                    } else {
                        Some("expected empty array\n".to_owned())
                    }
                },
                Node::Table(inner) => {
                    if inner.len() == 0 {
                        None
                    } else {
                        Some("expected empty table\n".to_owned())
                    }
                },
                Node::Text(_) => Some("expected table, found string\n".to_owned()),
                Node::Integer(_) => Some("expected table, found integer\n".to_owned()),
                Node::Other { kind } => Some(
                    cat3("expected table, found ", kind.as_str(), "\n"),
                ),
            }
        },
        _ => None,
    }
}

fn find_evidence(name: &str) -> (r: Option<Evidence>)
    ensures
        r == evidence_named(name@),
{
    if same(name, "unknown") {
        Some(Evidence::Unknown)
    } else if same(name, "reported") {
        Some(Evidence::Reported)
    } else if same(name, "read-confirmed") {
        Some(Evidence::ReadConfirmed)
    } else if same(name, "write-confirmed") {
        Some(Evidence::WriteConfirmed)
    } else if same(name, "user-confirmed") {
        Some(Evidence::UserConfirmed)
    } else {
        None
    }
}

fn find_backend(name: &str) -> (r: Option<BackendKind>)
    ensures
        r == backend_named(name@),
{
    if same(name, "windows") || same(name, "powertoys-cli") {
        Some(BackendKind::Windows)
    } else if same(name, "ddcutil-cli") {
        Some(BackendKind::DdcutilCli)
    } else if same(name, "fake") {
        Some(BackendKind::Fake)
    } else {
        None
    }
}

fn evidence_of(mapping: &Node) -> (r: Evidence)
    ensures
        r == evidence_at(mapping.tree()),
{
    match mapping.get("verification") {
        Some(v) => match name_of_variant(v) {
            Ok(name) => match find_evidence(name) {
                Some(e) => {
                    if problem_under_variant(v).is_none() {
                        e
                    } else {
                        Evidence::Unknown
                    }
                },
                None => Evidence::Unknown,
            },
            Err(_) => Evidence::Unknown,
        },
        None => Evidence::Unknown,
    }
}

pub open spec fn backend_result(r: Result<BackendKind, String>) -> Result<BackendKind, Seq<char>> {
    match r {
        Ok(k) => Ok(k),
        Err(e) => Err(e@),
    }
}

fn backend_of(file: &Node) -> (r: Result<BackendKind, String>)
    ensures
        backend_result(r) == backend_at(file.tree()),
{
    match file.get("backend") {
        Some(v) => match name_of_variant(v) {
            Ok(name) => match find_backend(name) {
                Some(kind) => match problem_under_variant(v) {
                    Some(problem) => Err(problem),
                    None => Ok(kind),
                },
                None => Err(
                    cat3(
                        "unknown variant `",
                        name,
                        "`, expected one of `windows`, `powertoys-cli`, `ddcutil-cli`, `fake`\n",
                    ),
                ),
            },
            Err(problem) => Err(problem),
        },
        None => Ok(BackendKind::Fake),
    }
}

// ---------------------------------------------------------------------------
// Monitors
// ---------------------------------------------------------------------------

/// The code that a destination is mapped to, if it can be read.
pub open spec fn mapped_code(mapping: NodeView) -> Option<InputCode> {
    match mapping.text_at("input_code"@) {
        Some(s) => match code_in(s) {
            Ok(code) => Some(code),
            Err(_) => None,
        },
        None => None,
    }
}

/// The input that a destination becomes. Its name becomes the input's label:
/// still the user's word, no longer the tool's concept.
pub open spec fn input_of(destination: (Seq<char>, NodeView)) -> MonitorInputView {
    MonitorInputView {
        input_code: mapped_code(destination.1)->0,
        label: Some(destination.0),
        verification: evidence_at(destination.1),
        note: destination.1.text_at("note"@),
    }
}

/// Holds of the destinations whose code can be read.
pub open spec fn has_mapped_code() -> spec_fn((Seq<char>, NodeView)) -> bool {
    |d: (Seq<char>, NodeView)| mapped_code(d.1) is Some
}

/// The destinations of a monitor that can be kept.
pub open spec fn kept_destinations(raw: NodeView) -> Seq<(Seq<char>, NodeView)> {
    raw.entries_at("destinations"@).filter(has_mapped_code())
}

pub open spec fn inputs_of(destinations: Seq<(Seq<char>, NodeView)>) -> Seq<MonitorInputView> {
    destinations.map_values(|d: (Seq<char>, NodeView)| input_of(d))
}

/// Holds of the inputs with a code.
pub open spec fn with_code(code: u8) -> spec_fn(MonitorInputView) -> bool {
    |i: MonitorInputView| i.input_code.0 == code
}

/// The inputs whose code is below `limit`, smallest code first, and in the
/// order they came where the codes are equal.
pub open spec fn ordered_below(inputs: Seq<MonitorInputView>, limit: nat) -> Seq<MonitorInputView>
    decreases limit,
{
    if limit == 0 {
        Seq::empty()
    } else {
        ordered_below(inputs, (limit - 1) as nat) + inputs.filter(with_code((limit - 1) as u8))
    }
}

/// Inputs in the order of their codes.
pub open spec fn ordered(inputs: Seq<MonitorInputView>) -> Seq<MonitorInputView> {
    ordered_below(inputs, 256)
}

pub open spec fn or_else(o: Option<Seq<char>>, other: Seq<char>) -> Seq<char> {
    match o {
        Some(s) => s,
        None => other,
    }
}

/// The key of a monitor: its serial, since that follows the panel, or else
/// its connection.
pub open spec fn key_of(raw: NodeView) -> Seq<char> {
    or_else(raw.text_at("serial"@), or_else(raw.text_at("backend_id"@), Seq::empty()))
}

/// What a monitor of the first schema becomes.
pub open spec fn monitor_of(raw: NodeView) -> MonitorConfigView {
    MonitorConfigView {
        key: key_of(raw),
        label: or_else(
            raw.text_at("name"@),
            or_else(raw.text_at("logical_id"@), "monitor"@),
        ),
        backend_id: or_else(raw.text_at("backend_id"@), Seq::empty()),
        serial: raw.text_at("serial"@),
        model: raw.text_at("model"@),
        inputs: ordered(inputs_of(kept_destinations(raw))),
    }
}

fn owned(o: Option<&str>) -> (r: Option<String>)
    ensures
        crate::text::opt_text(r) == opt_str(o),
{
    match o {
        Some(s) => Some(s.to_owned()),
        None => None,
    }
}

fn owned_or(o: Option<&str>, other: &str) -> (r: String)
    ensures
        r@ == or_else(opt_str(o), other@),
{
    match o {
        Some(s) => s.to_owned(),
        None => other.to_owned(),
    }
}

fn code_of(mapping: &Node) -> (r: Option<InputCode>)
    ensures
        r == mapped_code(mapping.tree()),
{
    match mapping.text_at("input_code") {
        Some(s) => match InputCode::from_str(s) {
            Ok(code) => Some(code),
            Err(_) => None,
        },
        None => None,
    }
}

/// The key of a monitor.
fn key_string(raw: &Node) -> (r: String)
    ensures
        r@ == key_of(raw.tree()),
{
    match raw.text_at("serial") {
        Some(s) => s.to_owned(),
        None => match raw.text_at("backend_id") {
            Some(s) => s.to_owned(),
            None => {
                let none = String::new();
                assert(none@ =~= Seq::<char>::empty());
                none
            },
        },
    }
}

/// Inputs in the order of their codes.
pub fn order_inputs(inputs: &Vec<MonitorInput>) -> (r: Vec<MonitorInput>)
    ensures
        r.deep_view() == ordered(inputs.deep_view()),
{
    let ghost all = inputs.deep_view();
    let mut out: Vec<MonitorInput> = Vec::new();
    let mut code: u16 = 0;
    assert(out.deep_view() =~= ordered_below(all, 0));
    while code < 256
        invariant
            code <= 256,
            all == inputs.deep_view(),
            out.deep_view() == ordered_below(all, code as nat),
        decreases 256 - code,
    {
        let ghost p = with_code(code as u8);
        let ghost front = out.deep_view();
        let mut i: usize = 0;
        proof {
            lemma_filter_take_none(all, p);
            assert(out.deep_view() =~= front + all.take(0).filter(p));
        }
        while i < inputs.len()
            invariant
                i <= inputs.len(),
                code < 256,
                all == inputs.deep_view(),
                p == with_code(code as u8),
                out.deep_view() == front + all.take(i as int).filter(p),
            decreases inputs.len() - i,
        {
            proof {
                lemma_filter_take(all, p, i as int);
            }
            if inputs[i].input_code.0 as u16 == code {
                let ghost before = out.deep_view();
                out.push(inputs[i].clone());
                assert(out.deep_view() =~= before.push(all[i as int]));
                assert(p(all[i as int]));
            } else {
                assert(!p(all[i as int]));
            }
            assert(out.deep_view() =~= front + all.take(i as int + 1).filter(p));
            i += 1;
        }
        proof {
            lemma_filter_take_none(all, p);
        }
        code += 1;
    }
    out
}

/// The inputs of a monitor, in the order its destinations came.
fn inputs_in(raw: &Node) -> (r: Vec<MonitorInput>)
    ensures
        r.deep_view() == inputs_of(kept_destinations(raw.tree())),
{
    let mut out: Vec<MonitorInput> = Vec::new();
    let ghost p = has_mapped_code();
    match raw.entries_at("destinations") {
        Some(entries) => {
            let ghost es = entry_trees(entries@);
            let mut i: usize = 0;
            proof {
                lemma_filter_take_none(es, p);
                assert(out.deep_view() =~= inputs_of(es.take(0).filter(p)));
            }
            while i < entries.len()
                invariant
                    i <= entries.len(),
                    es == entry_trees(entries@),
                    p == has_mapped_code(),
                    out.deep_view() == inputs_of(es.take(i as int).filter(p)),
                decreases entries.len() - i,
            {
                let mapping = &entries[i].1;
                proof {
                    lemma_filter_take(es, p, i as int);
                    assert(es[i as int] == (entries[i as int].0@, mapping.tree()));
                }
                match code_of(mapping) {
                    Some(code) => {
                        let ghost before = out.deep_view();
                        let ghost kept = es.take(i as int).filter(p);
                        out.push(
                            MonitorInput {
                                input_code: code,
                                label: Some(entries[i].0.clone()),
                                verification: evidence_of(mapping),
                                note: owned(mapping.text_at("note")),
                            },
                        );
                        proof {
                            assert(out.deep_view() =~= before.push(input_of(es[i as int])));
                            assert(inputs_of(kept.push(es[i as int])) =~= inputs_of(kept).push(
                                input_of(es[i as int]),
                            ));
                        }
                    },
                    None => {},
                }
                i += 1;
            }
            proof {
                lemma_filter_take_none(es, p);
            }
        },
        None => {
            proof {
                let es = Seq::<(Seq<char>, NodeView)>::empty();
                lemma_filter_take_none(es, p);
                assert(out.deep_view() =~= inputs_of(es.filter(p)));
            }
        },
    }
    out
}

fn upgrade_monitor(raw: &Node) -> (r: MonitorConfig)
    ensures
        r.deep_view() == monitor_of(raw.tree()),
{
    let label = match raw.text_at("name") {
        Some(s) => s.to_owned(),
        None => owned_or(raw.text_at("logical_id"), "monitor"),
    };
    let backend_id = match raw.text_at("backend_id") {
        Some(s) => s.to_owned(),
        None => {
            let none = String::new();
            assert(none@ =~= Seq::<char>::empty());
            none
        },
    };
    let unordered = inputs_in(raw);
    MonitorConfig {
        key: key_string(raw),
        label,
        backend_id,
        serial: owned(raw.text_at("serial")),
        model: owned(raw.text_at("model")),
        inputs: order_inputs(&unordered),
    }
}

// ---------------------------------------------------------------------------
// Actions
// ---------------------------------------------------------------------------

/// A destination's name with the step it stands for on one monitor.
pub open spec fn step_of(key: Seq<char>, d: (Seq<char>, NodeView)) -> (Seq<char>, ActionStepView) {
    (d.0, ActionStepView::SetInput { monitor: key, code: mapped_code(d.1)->0 })
}

pub open spec fn steps_of_monitor(raw: NodeView) -> Seq<(Seq<char>, ActionStepView)> {
    kept_destinations(raw).map_values(|d: (Seq<char>, NodeView)| step_of(key_of(raw), d))
}

/// Every destination of every monitor, monitor by monitor.
pub open spec fn all_steps(monitors: Seq<NodeView>) -> Seq<(Seq<char>, ActionStepView)>
    decreases monitors.len(),
{
    if monitors.len() == 0 {
        Seq::empty()
    } else {
        all_steps(monitors.drop_last()) + steps_of_monitor(monitors.last())
    }
}

/// The names that occur, each once, in the order they are first met.
pub open spec fn distinct_names(steps: Seq<(Seq<char>, ActionStepView)>) -> Seq<Seq<char>>
    decreases steps.len(),
{
    if steps.len() == 0 {
        Seq::empty()
    } else {
        let front = distinct_names(steps.drop_last());
        if front.contains(steps.last().0) {
            front
        } else {
            front.push(steps.last().0)
        }
    }
}

/// Holds of the steps under a name.
pub open spec fn under_name(name: Seq<char>) -> spec_fn((Seq<char>, ActionStepView)) -> bool {
    |s: (Seq<char>, ActionStepView)| s.0 == name
}

pub open spec fn steps_only(steps: Seq<(Seq<char>, ActionStepView)>) -> Seq<ActionStepView> {
    steps.map_values(|s: (Seq<char>, ActionStepView)| s.1)
}

/// The action that a destination becomes: one step for each monitor that knows
/// it.
pub open spec fn action_named(
    steps: Seq<(Seq<char>, ActionStepView)>,
    name: Seq<char>,
) -> ActionView {
    ActionView { name, hotkey: None, steps: steps_only(steps.filter(under_name(name))) }
}

/// One action for each destination, in the order of their names.
pub open spec fn grouped_actions(steps: Seq<(Seq<char>, ActionStepView)>) -> Seq<ActionView> {
    sorted_texts(distinct_names(steps)).map_values(|n: Seq<char>| action_named(steps, n))
}

/// Whether one of the actions has a name, whatever its case.
pub open spec fn has_action(actions: Seq<ActionView>, name: Seq<char>) -> bool {
    exists|i: int|
        0 <= i < actions.len() && same_ignoring_case((#[trigger] actions[i]).name, name)
}

/// Actions, with those others behind them whose names are not taken.
pub open spec fn carried_over(actions: Seq<ActionView>, existing: Seq<ActionView>) -> Seq<
    ActionView,
>
    decreases existing.len(),
{
    if existing.len() == 0 {
        actions
    } else {
        let front = carried_over(actions, existing.drop_last());
        if has_action(front, existing.last().name) {
            front
        } else {
            front.push(existing.last())
        }
    }
}

pub open spec fn steps_view(v: Seq<(String, ActionStep)>) -> Seq<(Seq<char>, ActionStepView)> {
    v.map_values(|s: (String, ActionStep)| (s.0@, s.1.deep_view()))
}

/// Appends the steps of one monitor.
fn add_steps(raw: &Node, steps: &mut Vec<(String, ActionStep)>)
    ensures
        steps_view(final(steps)@) == steps_view(old(steps)@) + steps_of_monitor(raw.tree()),
{
    let key = key_string(raw);
    let ghost p = has_mapped_code();
    let ghost start = steps_view(steps@);
    let ghost f = |d: (Seq<char>, NodeView)| step_of(key_of(raw.tree()), d);
    match raw.entries_at("destinations") {
        Some(entries) => {
            let ghost es = entry_trees(entries@);
            let mut i: usize = 0;
            proof {
                lemma_filter_take_none(es, p);
                assert(steps_view(steps@) =~= start + es.take(0).filter(p).map_values(f));
            }
            while i < entries.len()
                invariant
                    i <= entries.len(),
                    es == entry_trees(entries@),
                    p == has_mapped_code(),
                    key@ == key_of(raw.tree()),
                    f == (|d: (Seq<char>, NodeView)| step_of(key_of(raw.tree()), d)),
                    steps_view(steps@) == start + es.take(i as int).filter(p).map_values(f),
                decreases entries.len() - i,
            {
                let mapping = &entries[i].1;
                proof {
                    lemma_filter_take(es, p, i as int);
                    assert(es[i as int] == (entries[i as int].0@, mapping.tree()));
                }
                match code_of(mapping) {
                    Some(code) => {
                        let ghost before = steps@;
                        let ghost kept = es.take(i as int).filter(p);
                        let step = ActionStep::SetInput { monitor: key.clone(), code };
                        steps.push((entries[i].0.clone(), step));
                        proof {
                            assert(steps_view(steps@) =~= steps_view(before).push(
                                f(es[i as int]),
                            ));
                            assert(kept.push(es[i as int]).map_values(f) =~= kept.map_values(
                                f,
                            ).push(f(es[i as int])));
                            assert(steps_view(steps@) =~= start + kept.push(
                                es[i as int],
                            ).map_values(f));
                        }
                    },
                    None => {},
                }
                i += 1;
            }
            proof {
                lemma_filter_take_none(es, p);
            }
        },
        None => {
            proof {
                let es = Seq::<(Seq<char>, NodeView)>::empty();
                lemma_filter_take_none(es, p);
                assert(steps_view(steps@) =~= start + es.filter(p).map_values(f));
            }
        },
    }
}

fn names_in(steps: &Vec<(String, ActionStep)>) -> (r: Vec<String>)
    ensures
        texts(r@) == distinct_names(steps_view(steps@)),
{
    let ghost all = steps_view(steps@);
    let mut out: Vec<String> = Vec::new();
    let mut i: usize = 0;
    assert(texts(out@) =~= distinct_names(all.take(0)));
    while i < steps.len()
        invariant
            i <= steps.len(),
            all == steps_view(steps@),
            texts(out@) == distinct_names(all.take(i as int)),
        decreases steps.len() - i,
    {
        proof {
            let next = all.take(i as int + 1);
            assert(next.drop_last() =~= all.take(i as int));
            assert(next.last() == all[i as int]);
        }
        if !has_text_in(&out, steps[i].0.as_str()) {
            let ghost before = out@;
            out.push(steps[i].0.clone());
            assert(texts(out@) =~= texts(before).push(all[i as int].0));
        }
        i += 1;
    }
    assert(all.take(all.len() as int) =~= all);
    out
}

fn action_for(steps: &Vec<(String, ActionStep)>, name: &str) -> (r: Action)
    ensures
        r.deep_view() == action_named(steps_view(steps@), name@),
{
    let ghost all = steps_view(steps@);
    let ghost p = under_name(name@);
    let mut out: Vec<ActionStep> = Vec::new();
    let mut i: usize = 0;
    proof {
        lemma_filter_take_none(all, p);
        assert(out.deep_view() =~= steps_only(all.take(0).filter(p)));
    }
    while i < steps.len()
        invariant
            i <= steps.len(),
            all == steps_view(steps@),
            p == under_name(name@),
            out.deep_view() == steps_only(all.take(i as int).filter(p)),
        decreases steps.len() - i,
    {
        proof {
            lemma_filter_take(all, p, i as int);
        }
        if same(steps[i].0.as_str(), name) {
            let ghost before = out.deep_view();
            let ghost kept = all.take(i as int).filter(p);
            out.push(steps[i].1.clone());
            proof {
                assert(p(all[i as int]));
                assert(out.deep_view() =~= before.push(all[i as int].1));
                assert(steps_only(kept.push(all[i as int])) =~= steps_only(kept).push(
                    all[i as int].1,
                ));
            }
        } else {
            assert(!p(all[i as int]));
        }
        i += 1;
    }
    proof {
        lemma_filter_take_none(all, p);
    }
    Action { name: name.to_owned(), hotkey: None, steps: out }
}

fn group(steps: &Vec<(String, ActionStep)>) -> (r: Vec<Action>)
    ensures
        r.deep_view() == grouped_actions(steps_view(steps@)),
{
    let found = names_in(steps);
    let names = sort_texts(&found);
    let ghost want = grouped_actions(steps_view(steps@));
    let mut out: Vec<Action> = Vec::new();
    let mut i: usize = 0;
    assert(out.deep_view() =~= want.take(0));
    while i < names.len()
        invariant
            i <= names.len(),
            want == texts(names@).map_values(
                |n: Seq<char>| action_named(steps_view(steps@), n),
            ),
            out.deep_view() == want.take(i as int),
        decreases names.len() - i,
    {
        let ghost before = out.deep_view();
        out.push(action_for(steps, names[i].as_str()));
        assert(out.deep_view() =~= before.push(want[i as int]));
        assert(want.take(i as int + 1) =~= want.take(i as int).push(want[i as int]));
        i += 1;
    }
    assert(want.take(want.len() as int) =~= want);
    out
}

fn is_taken(actions: &Vec<Action>, name: &str) -> (r: bool)
    ensures
        r == has_action(actions.deep_view(), name@),
{
    let ghost all = actions.deep_view();
    let mut i: usize = 0;
    while i < actions.len()
        invariant
            i <= actions.len(),
            all == actions.deep_view(),
            forall|j: int| 0 <= j < i ==> !same_ignoring_case((#[trigger] all[j]).name, name@),
        decreases actions.len() - i,
    {
        if eq_ignore_case(actions[i].name.as_str(), name) {
            assert(same_ignoring_case(all[i as int].name, name@));
            return true;
        }
        i += 1;
    }
    false
}

/// Carries over actions whose names are not taken.
fn carry_over(actions: &mut Vec<Action>, existing: &Vec<Action>)
    ensures
        final(actions).deep_view() == carried_over(old(actions).deep_view(), existing.deep_view()),
{
    let ghost start = actions.deep_view();
    let ghost es = existing.deep_view();
    let mut i: usize = 0;
    assert(es.take(0) =~= Seq::<ActionView>::empty());
    while i < existing.len()
        invariant
            i <= existing.len(),
            es == existing.deep_view(),
            actions.deep_view() == carried_over(start, es.take(i as int)),
        decreases existing.len() - i,
    {
        proof {
            let next = es.take(i as int + 1);
            assert(next.drop_last() =~= es.take(i as int));
            assert(next.last() == es[i as int]);
        }
        if !is_taken(actions, existing[i].name.as_str()) {
            let ghost before = actions.deep_view();
            actions.push(existing[i].clone());
            assert(actions.deep_view() =~= before.push(es[i as int]));
        }
        i += 1;
    }
    assert(es.take(es.len() as int) =~= es);
}

// ---------------------------------------------------------------------------
// The file
// ---------------------------------------------------------------------------

/// A number as 64 bits without a sign: what is below zero counts down from the
/// top.
pub open spec fn as_unsigned(n: i64) -> u64 {
    if n >= 0 {
        n as u64
    } else {
        (0x1_0000_0000_0000_0000 + n) as u64
    }
}

pub open spec fn number_or(n: Option<i64>, other: u64) -> u64 {
    match n {
        Some(n) => as_unsigned(n),
        None => other,
    }
}

/// What a file of the first schema becomes. `existing` are the actions it has
/// already.
pub open spec fn upgraded(file: NodeView, existing: Seq<ActionView>) -> Result<
    ConfigView,
    Seq<char>,
> {
    match backend_at(file) {
        Err(problem) => Err(problem),
        Ok(backend) => {
            let fresh = ConfigView::new(or_else(file.text_at("host"@), "this-computer"@), backend);
            let monitors = file.array_at("monitors"@);
            Ok(
                ConfigView {
                    timeout_seconds: number_or(
                        file.integer_at("timeout_seconds"@),
                        fresh.timeout_seconds,
                    ),
                    settle_ms: number_or(file.integer_at("settle_ms"@), fresh.settle_ms),
                    dedupe_ms: number_or(file.integer_at("dedupe_ms"@), fresh.dedupe_ms),
                    tool_path: file.text_at("tool_path"@),
                    monitors: monitors.map_values(|raw: NodeView| monitor_of(raw)),
                    actions: carried_over(grouped_actions(all_steps(monitors)), existing),
                    ..fresh
                },
            )
        },
    }
}

/// The schema a file says it has, the present one if it does not say.
pub open spec fn schema_of(file: NodeView) -> i64 {
    match file.integer_at("schema_version"@) {
        Some(n) => n,
        None => SCHEMA_VERSION as i64,
    }
}

pub open spec fn config_result(r: Result<Config, String>) -> Result<ConfigView, Seq<char>> {
    match r {
        Ok(c) => Ok(c.deep_view()),
        Err(e) => Err(e@),
    }
}

fn unsigned_or(n: Option<i64>, other: u64) -> (r: u64)
    ensures
        r == number_or(n, other),
{
    match n {
        Some(n) => {
            if n >= 0 {
                n as u64
            } else {
                let wide: i128 = 0x1_0000_0000_0000_0000i128 + n as i128;
                wide as u64
            }
        },
        None => other,
    }
}

/// Upgrades a file of the first schema. `existing` are the actions it has
/// already, as far as they can be read.
pub fn migrate_v1(file: &Node, existing: &Vec<Action>) -> (r: Result<Config, String>)
    ensures
        config_result(r) == upgraded(file.tree(), existing.deep_view()),
{
    let backend = match backend_of(file) {
        Ok(kind) => kind,
        Err(problem) => {
            return Err(problem);
        },
    };
    let host = owned_or(file.text_at("host"), "this-computer");
    let mut config = Config::new(host.as_str(), backend);
    config.timeout_seconds = unsigned_or(file.integer_at("timeout_seconds"), config.timeout_seconds);
    config.settle_ms = unsigned_or(file.integer_at("settle_ms"), config.settle_ms);
    config.dedupe_ms = unsigned_or(file.integer_at("dedupe_ms"), config.dedupe_ms);
    config.tool_path = owned(file.text_at("tool_path"));

    let ghost ms = file.tree().array_at("monitors"@);
    let mut monitors: Vec<MonitorConfig> = Vec::new();
    let mut steps: Vec<(String, ActionStep)> = Vec::new();
    let ghost want = ms.map_values(|raw: NodeView| monitor_of(raw));
    assert(monitors.deep_view() =~= want.take(0));
    assert(ms.take(0) =~= Seq::<NodeView>::empty());
    assert(steps_view(steps@) =~= all_steps(ms.take(0)));
    match file.array_at("monitors") {
        Some(items) => {
            let mut i: usize = 0;
            while i < items.len()
                invariant
                    i <= items.len(),
                    ms == trees(items@),
                    want == ms.map_values(|raw: NodeView| monitor_of(raw)),
                    monitors.deep_view() == want.take(i as int),
                    steps_view(steps@) == all_steps(ms.take(i as int)),
                decreases items.len() - i,
            {
                let ghost before = monitors.deep_view();
                monitors.push(upgrade_monitor(&items[i]));
                add_steps(&items[i], &mut steps);
                proof {
                    assert(ms[i as int] == items[i as int].tree());
                    assert(monitors.deep_view() =~= before.push(want[i as int]));
                    assert(want.take(i as int + 1) =~= want.take(i as int).push(want[i as int]));
                    let next = ms.take(i as int + 1);
                    assert(next.drop_last() =~= ms.take(i as int));
                    assert(next.last() == ms[i as int]);
                }
                i += 1;
            }
            assert(ms.take(ms.len() as int) =~= ms);
            assert(want.take(want.len() as int) =~= want);
        },
        None => {
            assert(ms.take(0) =~= ms);
            assert(want.take(0) =~= want);
        },
    }
    let mut actions = group(&steps);
    carry_over(&mut actions, existing);
    config.monitors = monitors;
    config.actions = actions;
    Ok(config)
}

/// The schema a file says it has, the present one if it does not say.
pub fn schema_version_of(file: &Node) -> (r: i64)
    ensures
        r == schema_of(file.tree()),
{
    match file.integer_at("schema_version") {
        Some(n) => n,
        None => SCHEMA_VERSION as i64,
    }
}

/// What becomes of the text of a file: it is upgraded if it is of the first
/// schema, left to be read as it stands if it is of another, or is no file at
/// all.
pub open spec fn read_older(text: Seq<char>, existing: Seq<ActionView>) -> Result<
    Option<ConfigView>,
    Seq<char>,
> {
    match document_of(text) {
        Err(problem) => Err(problem),
        Ok(file) => if schema_of(file) == 1 {
            match upgraded(file, existing) {
                Ok(c) => Ok(Some(c)),
                Err(problem) => Err(problem),
            }
        } else {
            Ok(None)
        },
    }
}

/// Reads a file of the first schema. `None` when the file is of another schema
/// and is to be read as it stands. `existing` are the actions it has already,
/// as far as they can be read.
pub fn from_older_toml(text: &str, existing: &Vec<Action>) -> (r: Result<Option<Config>, String>)
    ensures
        match r {
            Ok(Some(c)) => read_older(text@, existing.deep_view()) == Ok::<
                Option<ConfigView>,
                Seq<char>,
            >(Some(c.deep_view())),
            Ok(None) => read_older(text@, existing.deep_view()) == Ok::<
                Option<ConfigView>,
                Seq<char>,
            >(None),
            Err(e) => read_older(text@, existing.deep_view()) == Err::<
                Option<ConfigView>,
                Seq<char>,
            >(e@),
        },
{
    match read_document(text) {
        Err(problem) => Err(problem),
        Ok(file) => {
            if schema_version_of(&file) == 1 {
                match migrate_v1(&file, existing) {
                    Ok(c) => Ok(Some(c)),
                    Err(problem) => Err(problem),
                }
            } else {
                Ok(None)
            }
        },
    }
}

// ---------------------------------------------------------------------------
// What an upgrade promises
// ---------------------------------------------------------------------------

proof fn lemma_ordered_below(inputs: Seq<MonitorInputView>, limit: nat)
    requires
        limit <= 256,
    ensures
        forall|i: int|
            0 <= i < ordered_below(inputs, limit).len() ==> inputs.contains(
                #[trigger] ordered_below(inputs, limit)[i],
            ) && ordered_below(inputs, limit)[i].input_code.0 < limit,
        forall|i: int|
            0 <= i < inputs.len() && inputs[i].input_code.0 < limit ==> ordered_below(
                inputs,
                limit,
            ).contains(#[trigger] inputs[i]),
        forall|i: int, j: int|
            0 <= i < j < ordered_below(inputs, limit).len() ==> (#[trigger] ordered_below(
                inputs,
                limit,
            )[i]).input_code.0 <= (#[trigger] ordered_below(inputs, limit)[j]).input_code.0,
    decreases limit,
{
    if limit > 0 {
        let prior = (limit - 1) as nat;
        lemma_ordered_below(inputs, prior);
        let front = ordered_below(inputs, prior);
        let p = with_code(prior as u8);
        let back = inputs.filter(p);
        let all = ordered_below(inputs, limit);
        lemma_filter_members(inputs, p);
        assert(all == front + back);
        assert forall|i: int| 0 <= i < all.len() implies inputs.contains(#[trigger] all[i])
            && all[i].input_code.0 < limit by {
            if i < front.len() {
                assert(all[i] == front[i]);
            } else {
                assert(all[i] == back[i - front.len()]);
                assert(p(back[i - front.len()]));
            }
        }
        assert forall|i: int|
            0 <= i < inputs.len() && inputs[i].input_code.0 < limit implies all.contains(
            #[trigger] inputs[i],
        ) by {
            if inputs[i].input_code.0 < prior {
                assert(front.contains(inputs[i]));
                let k = choose|k: int| 0 <= k < front.len() && front[k] == inputs[i];
                assert(all[k] == inputs[i]);
            } else {
                assert(p(inputs[i]));
                assert(back.contains(inputs[i]));
                let k = choose|k: int| 0 <= k < back.len() && back[k] == inputs[i];
                assert(all[front.len() + k] == inputs[i]);
            }
        }
        assert forall|i: int, j: int| 0 <= i < j < all.len() implies (
        #[trigger] all[i]).input_code.0 <= (#[trigger] all[j]).input_code.0 by {
            if j < front.len() {
                assert(all[i] == front[i] && all[j] == front[j]);
            } else {
                assert(all[j] == back[j - front.len()]);
                assert(p(back[j - front.len()]));
                if i < front.len() {
                    assert(all[i] == front[i]);
                } else {
                    assert(all[i] == back[i - front.len()]);
                    assert(p(back[i - front.len()]));
                }
            }
        }
    }
}

proof fn lemma_carried_over_keeps(actions: Seq<ActionView>, existing: Seq<ActionView>)
    ensures
        actions.is_prefix_of(carried_over(actions, existing)),
    decreases existing.len(),
{
    if existing.len() > 0 {
        lemma_carried_over_keeps(actions, existing.drop_last());
    }
}

proof fn lemma_distinct_names(steps: Seq<(Seq<char>, ActionStepView)>, i: int)
    requires
        0 <= i < steps.len(),
    ensures
        distinct_names(steps).contains(steps[i].0),
    decreases steps.len(),
{
    let front = steps.drop_last();
    let names = distinct_names(front);
    if i < front.len() {
        lemma_distinct_names(front, i);
        assert(front[i] == steps[i]);
        let k = choose|k: int| 0 <= k < names.len() && names[k] == steps[i].0;
        assert(distinct_names(steps)[k] == steps[i].0);
    } else if !names.contains(steps.last().0) {
        assert(distinct_names(steps)[names.len() as int] == steps[i].0);
    }
}

proof fn lemma_all_steps(monitors: Seq<NodeView>, i: int, step: (Seq<char>, ActionStepView))
    requires
        0 <= i < monitors.len(),
        steps_of_monitor(monitors[i]).contains(step),
    ensures
        all_steps(monitors).contains(step),
    decreases monitors.len(),
{
    let front = all_steps(monitors.drop_last());
    let back = steps_of_monitor(monitors.last());
    if i < monitors.len() - 1 {
        assert(monitors.drop_last()[i] == monitors[i]);
        lemma_all_steps(monitors.drop_last(), i, step);
        let k = choose|k: int| 0 <= k < front.len() && front[k] == step;
        assert(all_steps(monitors)[k] == step);
    } else {
        let k = choose|k: int| 0 <= k < back.len() && back[k] == step;
        assert(all_steps(monitors)[front.len() + k] == step);
    }
}

/// An upgrade loses no destination whose code can be read: it becomes an input
/// of its monitor, with its code, its evidence and its note, and a step of the
/// action that bears its name.
pub proof fn law_an_upgrade_keeps_every_destination(
    file: NodeView,
    existing: Seq<ActionView>,
    i: int,
    d: (Seq<char>, NodeView),
)
    requires
        upgraded(file, existing) is Ok,
        0 <= i < file.array_at("monitors"@).len(),
        kept_destinations(file.array_at("monitors"@)[i]).contains(d),
    ensures
        ({
            let config = upgraded(file, existing)->Ok_0;
            let raw = file.array_at("monitors"@)[i];
            &&& config.monitors[i].inputs.contains(input_of(d))
            &&& exists|k: int|
                0 <= k < config.actions.len() && (#[trigger] config.actions[k]).name == d.0
                    && config.actions[k].steps.contains(step_of(key_of(raw), d).1)
        }),
{
    let monitors = file.array_at("monitors"@);
    let raw = monitors[i];
    let config = upgraded(file, existing)->Ok_0;
    let kept = kept_destinations(raw);
    let n = choose|n: int| 0 <= n < kept.len() && kept[n] == d;
    // The input.
    let inputs = inputs_of(kept);
    assert(inputs[n] == input_of(d));
    lemma_ordered_below(inputs, 256);
    assert(config.monitors[i] == monitor_of(raw));
    // The step.
    let step = step_of(key_of(raw), d);
    assert(steps_of_monitor(raw)[n] == step);
    lemma_all_steps(monitors, i, step);
    let steps = all_steps(monitors);
    let s = choose|s: int| 0 <= s < steps.len() && steps[s] == step;
    lemma_distinct_names(steps, s);
    let names = distinct_names(steps);
    lemma_sorted_texts_contains(names, d.0);
    let order = sorted_texts(names);
    let k = choose|k: int| 0 <= k < order.len() && order[k] == d.0;
    let grouped = grouped_actions(steps);
    assert(grouped[k] == action_named(steps, d.0));
    lemma_filter_members(steps, under_name(d.0));
    assert(under_name(d.0)(steps[s]));
    let mine = steps.filter(under_name(d.0));
    let m = choose|m: int| 0 <= m < mine.len() && mine[m] == step;
    assert(grouped[k].steps[m] == step.1);
    lemma_carried_over_keeps(grouped, existing);
    assert(config.actions[k] == grouped[k]);
}

/// An upgrade invents no input, and lists a monitor's inputs in the order of
/// their codes.
pub proof fn law_an_upgrade_invents_no_input(file: NodeView, existing: Seq<ActionView>, i: int)
    requires
        upgraded(file, existing) is Ok,
        0 <= i < file.array_at("monitors"@).len(),
    ensures
        ({
            let raw = file.array_at("monitors"@)[i];
            let inputs = (upgraded(file, existing)->Ok_0).monitors[i].inputs;
            &&& forall|k: int|
                0 <= k < inputs.len() ==> inputs_of(kept_destinations(raw)).contains(
                    #[trigger] inputs[k],
                )
            &&& forall|k: int, l: int|
                0 <= k < l < inputs.len() ==> (#[trigger] inputs[k]).input_code.0 <= (
                #[trigger] inputs[l]).input_code.0
        }),
{
    lemma_ordered_below(inputs_of(kept_destinations(file.array_at("monitors"@)[i])), 256);
}

/// An upgraded file is of the present schema and keeps the actions it had,
/// those aside whose names a destination or an earlier action took.
pub proof fn law_an_upgrade_is_current(file: NodeView, existing: Seq<ActionView>, e: int)
    requires
        upgraded(file, existing) is Ok,
        0 <= e < existing.len(),
    ensures
        (upgraded(file, existing)->Ok_0).schema_version == SCHEMA_VERSION,
        has_action((upgraded(file, existing)->Ok_0).actions, existing[e].name),
{
    lemma_carried_over_has(grouped_actions(all_steps(file.array_at("monitors"@))), existing, e);
}

proof fn lemma_carried_over_has(actions: Seq<ActionView>, existing: Seq<ActionView>, e: int)
    requires
        0 <= e < existing.len(),
    ensures
        has_action(carried_over(actions, existing), existing[e].name),
    decreases existing.len(),
{
    let front = carried_over(actions, existing.drop_last());
    let all = carried_over(actions, existing);
    if e < existing.len() - 1 {
        lemma_carried_over_has(actions, existing.drop_last(), e);
        let k = choose|k: int|
            0 <= k < front.len() && same_ignoring_case(
                (#[trigger] front[k]).name,
                existing[e].name,
            );
        assert(same_ignoring_case(all[k].name, existing[e].name));
    } else if !has_action(front, existing.last().name) {
        assert(same_ignoring_case(all[front.len() as int].name, existing[e].name));
    }
}

// ---------------------------------------------------------------------------
// Laws of names and numbers
// ---------------------------------------------------------------------------

/// Evidence is read by the name it is shown under, and by no other.
pub proof fn law_evidence_is_read_by_its_name(e: Evidence, name: Seq<char>)
    ensures
        evidence_named(evidence_name(e)) == Some(e),
        evidence_named(name) == Some(e) ==> name == evidence_name(e),
{
    reveal_strlit("unknown");
    reveal_strlit("reported");
    reveal_strlit("read-confirmed");
    reveal_strlit("write-confirmed");
    reveal_strlit("user-confirmed");
    assert("unknown"@.len() == 7 && "reported"@.len() == 8);
    assert("read-confirmed"@.len() == 14 && "user-confirmed"@.len() == 14);
    assert("write-confirmed"@.len() == 15);
    assert("read-confirmed"@[0] == 'r' && "user-confirmed"@[0] == 'u');
}

/// A backend is read by its name; the old tool on Windows is now Windows itself.
pub proof fn law_a_backend_is_read_by_its_name(name: Seq<char>)
    ensures
        backend_named(name) == Some(BackendKind::Windows) <==> name == "windows"@ || name
            == "powertoys-cli"@,
        backend_named(name) == Some(BackendKind::DdcutilCli) <==> name == "ddcutil-cli"@,
        backend_named(name) == Some(BackendKind::Fake) <==> name == "fake"@,
{
    reveal_strlit("windows");
    reveal_strlit("powertoys-cli");
    reveal_strlit("ddcutil-cli");
    reveal_strlit("fake");
    assert("windows"@.len() == 7 && "powertoys-cli"@.len() == 13);
    assert("ddcutil-cli"@.len() == 11 && "fake"@.len() == 4);
}

/// A file without a backend has the fake one, and one that names a backend has
/// that one or is refused.
pub proof fn law_a_file_has_the_backend_it_names(file: NodeView)
    ensures
        file.get("backend"@) is None ==> backend_at(file) == Ok::<BackendKind, Seq<char>>(
            BackendKind::Fake,
        ),
        file.get("backend"@) matches Some(NodeView::Text(name)) ==> match backend_named(name) {
            Some(kind) => backend_at(file) == Ok::<BackendKind, Seq<char>>(kind),
            None => backend_at(file) is Err,
        },
        file.get("backend"@) matches Some(NodeView::Integer(_)) ==> backend_at(file) is Err,
        file.get("backend"@) matches Some(NodeView::Array(_)) ==> backend_at(file) is Err,
{
}

/// Evidence that is named as a text is taken as it is named, and as unknown
/// where it is missing or named otherwise.
pub proof fn law_evidence_is_taken_as_it_is_named(mapping: NodeView)
    ensures
        mapping.get("verification"@) is None ==> evidence_at(mapping) == Evidence::Unknown,
        mapping.get("verification"@) matches Some(NodeView::Text(name)) ==> match evidence_named(
            name,
        ) {
            Some(e) => evidence_at(mapping) == e,
            None => evidence_at(mapping) == Evidence::Unknown,
        },
{
}

/// A monitor goes by its serial, without one by its connection; it keeps what
/// else the file says of it.
pub proof fn law_a_monitor_keeps_what_the_file_says(raw: NodeView)
    ensures
        ({
            let m = monitor_of(raw);
            &&& raw.text_at("serial"@) matches Some(s) ==> m.key == s
            &&& raw.text_at("serial"@) is None ==> (raw.text_at("backend_id"@) matches Some(id)
                ==> m.key == id)
            &&& raw.text_at("name"@) matches Some(n) ==> m.label == n
            &&& raw.text_at("name"@) is None ==> (raw.text_at("logical_id"@) matches Some(n)
                ==> m.label == n)
            &&& raw.text_at("backend_id"@) matches Some(id) ==> m.backend_id == id
            &&& m.serial == raw.text_at("serial"@)
            &&& m.model == raw.text_at("model"@)
        }),
{
}

/// A destination becomes an input of the code it is mapped to, under its own
/// name, and a step that sets that code on its monitor.
pub proof fn law_a_destination_becomes_an_input(key: Seq<char>, d: (Seq<char>, NodeView))
    requires
        mapped_code(d.1) is Some,
    ensures
        input_of(d).input_code == mapped_code(d.1)->0,
        input_of(d).label == Some(d.0),
        input_of(d).note == d.1.text_at("note"@),
        step_of(key, d).0 == d.0,
        step_of(key, d).1 matches ActionStepView::SetInput { monitor, code } && monitor == key
            && code == mapped_code(d.1)->0,
        d.1.text_at("input_code"@) matches Some(s) && code_in(s) == Ok::<
            InputCode,
            InputCodeParseErrorView,
        >(mapped_code(d.1)->0),
{
}

/// A number is kept as it is, and one below nought as what its bits are worth;
/// one that is missing is the usual one.
pub proof fn law_numbers_are_kept(n: i64, other: u64)
    ensures
        n >= 0 ==> number_or(Some(n), other) == n,
        n < 0 ==> number_or(Some(n), other) - n == 0x1_0000_0000_0000_0000,
        number_or(None, other) == other,
{
}

/// The settings of a file are those of its upgrade.
pub proof fn law_an_upgrade_keeps_the_settings(file: NodeView, existing: Seq<ActionView>)
    requires
        upgraded(file, existing) is Ok,
    ensures
        ({
            let c = upgraded(file, existing)->Ok_0;
            &&& backend_at(file) == Ok::<BackendKind, Seq<char>>(c.backend)
            &&& file.text_at("host"@) matches Some(h) ==> c.host == h
            &&& file.integer_at("timeout_seconds"@) matches Some(n) ==> (n >= 0 ==> c.timeout_seconds
                == n)
            &&& file.integer_at("settle_ms"@) matches Some(n) ==> (n >= 0 ==> c.settle_ms == n)
            &&& file.integer_at("dedupe_ms"@) matches Some(n) ==> (n >= 0 ==> c.dedupe_ms == n)
            &&& c.tool_path == file.text_at("tool_path"@)
            &&& c.monitors.len() == file.array_at("monitors"@).len()
        }),
        upgraded(file, existing) is Ok <==> backend_at(file) is Ok,
{
}

/// An action of the user's own is kept whole, unless one of that name, in either
/// case, comes out of the file or stands before it.
pub proof fn law_own_actions_are_kept_whole(
    actions: Seq<ActionView>,
    existing: Seq<ActionView>,
    e: int,
)
    requires
        0 <= e < existing.len(),
        forall|k: int|
            0 <= k < actions.len() ==> !spelled_alike(
                (#[trigger] actions[k]).name,
                existing[e].name,
            ),
        forall|k: int|
            0 <= k < e ==> !spelled_alike((#[trigger] existing[k]).name, existing[e].name),
    ensures
        carried_over(actions, existing).contains(existing[e]),
        actions.is_prefix_of(carried_over(actions, existing)),
        carried_over(actions, existing).len() <= actions.len() + existing.len(),
    decreases existing.len(),
{
    lemma_carried_over_keeps(actions, existing);
    lemma_carried_over_from(actions, existing);
    let before = existing.drop_last();
    let front = carried_over(actions, before);
    let all = carried_over(actions, existing);
    if e < existing.len() - 1 {
        assert(before[e] == existing[e]);
        assert forall|k: int| 0 <= k < e implies !spelled_alike(
            (#[trigger] before[k]).name,
            before[e].name,
        ) by {
            assert(before[k] == existing[k]);
        }
        law_own_actions_are_kept_whole(actions, before, e);
        let k = choose|k: int| 0 <= k < front.len() && front[k] == existing[e];
        assert(all[k] == existing[e]);
    } else {
        lemma_carried_over_from(actions, before);
        if has_action(front, existing[e].name) {
            let k = choose|k: int|
                0 <= k < front.len() && same_ignoring_case(
                    (#[trigger] front[k]).name,
                    existing[e].name,
                );
            law_nothing_but_case_is_ignored(front[k].name, existing[e].name);
            assert(actions.contains(front[k]) || before.contains(front[k]));
            if actions.contains(front[k]) {
                let m = choose|m: int| 0 <= m < actions.len() && actions[m] == front[k];
                assert(spelled_alike(actions[m].name, existing[e].name));
            } else {
                let m = choose|m: int| 0 <= m < before.len() && before[m] == front[k];
                assert(spelled_alike(existing[m].name, existing[e].name));
            }
        }
        assert(all[all.len() - 1] == existing[e]);
    }
}

proof fn lemma_carried_over_from(actions: Seq<ActionView>, existing: Seq<ActionView>)
    ensures
        carried_over(actions, existing).len() <= actions.len() + existing.len(),
        forall|k: int|
            0 <= k < carried_over(actions, existing).len() ==> actions.contains(
                #[trigger] carried_over(actions, existing)[k],
            ) || existing.contains(carried_over(actions, existing)[k]),
    decreases existing.len(),
{
    let all = carried_over(actions, existing);
    if existing.len() > 0 {
        let before = existing.drop_last();
        let front = carried_over(actions, before);
        lemma_carried_over_from(actions, before);
        assert forall|k: int| 0 <= k < all.len() implies actions.contains(#[trigger] all[k])
            || existing.contains(all[k]) by {
            if k < front.len() {
                assert(all[k] == front[k]);
                if before.contains(front[k]) {
                    let m = choose|m: int| 0 <= m < before.len() && before[m] == front[k];
                    assert(existing[m] == all[k]);
                }
            } else {
                assert(existing[existing.len() - 1] == all[k]);
            }
        }
    }
}

/// Only a file of the first kind is upgraded.
pub proof fn law_only_the_first_kind_is_upgraded(text: Seq<char>, existing: Seq<ActionView>)
    ensures
        document_of(text) matches Ok(file) ==> {
            &&& file.integer_at("schema_version"@) == Some(1i64) ==> match upgraded(
                file,
                existing,
            ) {
                Ok(c) => read_older(text, existing) == Ok::<Option<ConfigView>, Seq<char>>(Some(c)),
                Err(e) => read_older(text, existing) is Err,
            }
            &&& file.integer_at("schema_version"@) != Some(1i64) ==> read_older(text, existing)
                == Ok::<Option<ConfigView>, Seq<char>>(None)
        },
        document_of(text) is Err ==> read_older(text, existing) is Err,
{
}

} // verus!

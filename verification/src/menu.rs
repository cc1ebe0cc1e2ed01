//! What the tray menu offers, built from the configuration.
//!
//! Every platform shows exactly the same menu. The model keeps an item's label
//! and its detail (a hotkey, an input code) apart, because each platform lays
//! them out and escapes them differently; `windows_text` and `dbus_text` do
//! that last step.

use vstd::prelude::*;
use vstd::slice::slice_subrange;

use crate::actions::{Action, ActionView};
use crate::config::{
    Config, ConfigView, MonitorConfig, MonitorConfigView, MonitorInput, MonitorInputView,
};
use crate::seqs::{
    lemma_filter_members, lemma_filter_no_one, lemma_filter_take, lemma_filter_take_none,
};
use crate::text::{
    cat2, cat3, cat4, chars_of, copy_texts, eq_ignore_case, has_text, join, joined,
    law_a_character_is_replaced_everywhere, law_a_text_splits_at_a_separator,
    law_a_text_without_separator_is_whole, law_either_case_will_do,
    law_nothing_but_case_is_ignored, lemma_has_text_between, lemma_split_on_nonempty, lowercase,
    opt_text, pieces, replace, replaced, same, same_ignoring_case, spelled_alike, split_char,
    split_on, string_of, texts, trim, trim_str, trimmed, upper_all, uppercase, uppered,
};
use crate::types::{code_text, opt_str, standard_name};

verus! {

// ---------------------------------------------------------------------------
// Entries
// ---------------------------------------------------------------------------

/// What choosing an item does.
#[derive(Debug, PartialEq, Eq)]
pub enum Command {
    /// Run the command line with these arguments: an argument list, never a
    /// shell string. `describe` names it in a notification if it fails.
    Cli { args: Vec<String>, describe: String },
    OpenSettings,
    Quit,
}

pub enum CommandView {
    Cli { args: Seq<Seq<char>>, describe: Seq<char> },
    OpenSettings,
    Quit,
}

impl DeepView for Command {
    type V = CommandView;

    open spec fn deep_view(&self) -> CommandView {
        match *self {
            Command::Cli { args, describe } => CommandView::Cli {
                args: texts(args@),
                describe: describe@,
            },
            Command::OpenSettings => CommandView::OpenSettings,
            Command::Quit => CommandView::Quit,
        }
    }
}

impl Clone for Command {
    fn clone(&self) -> (r: Self)
        ensures
            r.deep_view() == self.deep_view(),
    {
        match self {
            Command::Cli { args, describe } => Command::Cli {
                args: copy_texts(args),
                describe: describe.clone(),
            },
            Command::OpenSettings => Command::OpenSettings,
            Command::Quit => Command::Quit,
        }
    }
}

#[derive(Debug, PartialEq, Eq)]
pub enum Entry {
    Item {
        id: u32,
        label: String,
        /// Secondary text: an action's hotkey, an input's code.
        detail: Option<String>,
        command: Command,
    },
    /// Shown greyed out, to say why the menu is short.
    Note { label: String },
    Submenu { label: String, entries: Vec<Entry> },
    Separator,
}

#[allow(inconsistent_fields)]
pub enum EntryView {
    Item { id: int, label: Seq<char>, detail: Option<Seq<char>>, command: CommandView },
    Note { label: Seq<char> },
    Submenu { label: Seq<char>, entries: Seq<EntryView> },
    Separator,
}

impl Entry {
    pub open spec fn tree(self) -> EntryView
        decreases self,
    {
        match self {
            Entry::Item { id, label, detail, command } => EntryView::Item {
                id: id as int,
                label: label@,
                detail: opt_text(detail),
                command: command.deep_view(),
            },
            Entry::Note { label } => EntryView::Note { label: label@ },
            Entry::Submenu { label, entries } => EntryView::Submenu {
                label: label@,
                entries: Seq::new(
                    entries@.len(),
                    |i: int|
                        if 0 <= i < entries@.len() {
                            entries@[i].tree()
                        } else {
                            EntryView::Separator
                        },
                ),
            },
            Entry::Separator => EntryView::Separator,
        }
    }
}

/// The trees of a list of entries.
pub open spec fn trees(entries: Seq<Entry>) -> Seq<EntryView> {
    entries.map_values(|e: Entry| e.tree())
}

proof fn lemma_submenu_tree(label: String, entries: Vec<Entry>)
    ensures
        (Entry::Submenu { label, entries }).tree() == (EntryView::Submenu {
            label: label@,
            entries: trees(entries@),
        }),
{
    assert((Entry::Submenu { label, entries }).tree()->Submenu_entries =~= trees(entries@));
}

// ---------------------------------------------------------------------------
// Inputs worth offering
// ---------------------------------------------------------------------------

/// An input someone gave a name other than its standard one.
pub open spec fn is_named() -> spec_fn(MonitorInputView) -> bool {
    |input: MonitorInputView|
        match input.label {
            None => false,
            Some(label) => trimmed(label).len() > 0 && !(standard_name(
                input.input_code,
            ) matches Some(standard) && same_ignoring_case(standard, trimmed(label))),
        }
}

/// The inputs worth a click: the ones someone named, or all of them where
/// none is named.
pub open spec fn offered(inputs: Seq<MonitorInputView>) -> Seq<MonitorInputView> {
    let named = inputs.filter(is_named());
    if named.len() == 0 {
        inputs
    } else {
        named
    }
}

pub open spec fn input_views(v: Seq<&MonitorInput>) -> Seq<MonitorInputView> {
    v.map_values(|i: &MonitorInput| i.deep_view())
}

fn named(input: &MonitorInput) -> (r: bool)
    ensures
        r == is_named()(input.deep_view()),
{
    match &input.label {
        None => false,
        Some(label) => {
            let label = trim_str(label.as_str());
            if label.as_str().unicode_len() == 0 {
                return false;
            }
            match input.input_code.standard_label() {
                None => true,
                Some(standard) => !eq_ignore_case(standard, label.as_str()),
            }
        },
    }
}

/// The inputs worth a click.
///
/// Setting up records every input a monitor claims, and capability lists
/// routinely claim sockets that do not exist. A menu offering them is a menu
/// for putting a monitor to sleep on an empty input with one click. An input
/// someone renamed from its standard name ("HDMI-1" to "Laptop") is one they
/// know. With nothing renamed, every input is offered, so a fresh setup still
/// has something to click.
pub fn inputs_to_offer(monitor: &MonitorConfig) -> (r: Vec<&MonitorInput>)
    ensures
        input_views(r@) == offered(monitor.deep_view().inputs),
{
    let ghost all = monitor.deep_view().inputs;
    let ghost p = is_named();
    let mut kept: Vec<&MonitorInput> = Vec::new();
    let mut every: Vec<&MonitorInput> = Vec::new();
    let mut i: usize = 0;
    proof {
        lemma_filter_take_none(all, p);
        assert(input_views(kept@) =~= all.take(0).filter(p));
        assert(input_views(every@) =~= all.take(0));
    }
    while i < monitor.inputs.len()
        invariant
            i <= monitor.inputs@.len(),
            all == monitor.deep_view().inputs,
            p == is_named(),
            input_views(kept@) == all.take(i as int).filter(p),
            input_views(every@) == all.take(i as int),
        decreases monitor.inputs@.len() - i,
    {
        let input = &monitor.inputs[i];
        proof {
            lemma_filter_take(all, p, i as int);
            assert(all[i as int] == input.deep_view());
        }
        let ghost before = kept@;
        let ghost had = every@;
        if named(input) {
            kept.push(input);
            assert(input_views(kept@) =~= input_views(before).push(input.deep_view()));
        }
        every.push(input);
        assert(input_views(every@) =~= all.take(i as int + 1));
        i += 1;
    }
    proof {
        lemma_filter_take_none(all, p);
        assert(all.take(all.len() as int) =~= all);
    }
    if kept.len() == 0 {
        assert(input_views(kept@).len() == 0);
        every
    } else {
        assert(input_views(kept@).len() > 0);
        kept
    }
}

/// Where any input has a name, only inputs with one are offered; a monitor
/// that has inputs always offers some.
pub proof fn law_only_named_inputs_are_offered(inputs: Seq<MonitorInputView>, i: int, k: int)
    requires
        0 <= i < inputs.len(),
        is_named()(inputs[i]),
        0 <= k < offered(inputs).len(),
    ensures
        is_named()(offered(inputs)[k]),
        inputs.contains(offered(inputs)[k]),
        offered(inputs).contains(inputs[i]),
{
    lemma_filter_members(inputs, is_named());
}

// ---------------------------------------------------------------------------
// Hotkeys
// ---------------------------------------------------------------------------

/// One key of a hotkey as people write it.
pub open spec fn pretty_key(part: Seq<char>) -> Seq<char> {
    let p = trimmed(part);
    let u = upper_all(p);
    if u == "CTRL"@ || u == "CONTROL"@ {
        "Ctrl"@
    } else if u == "ALT"@ {
        "Alt"@
    } else if u == "SHIFT"@ {
        "Shift"@
    } else if u == "WIN"@ || u == "SUPER"@ || u == "META"@ {
        "Win"@
    } else if u.len() == 1 {
        u
    } else if p.len() == 0 {
        Seq::empty()
    } else {
        uppercase(p.take(1)) + lowercase(p.skip(1))
    }
}

pub open spec fn pretty_keys(parts: Seq<Seq<char>>) -> Seq<Seq<char>> {
    parts.map_values(|p: Seq<char>| pretty_key(p))
}

/// A hotkey as a menu shows it.
pub open spec fn pretty(hotkey: Seq<char>) -> Seq<char> {
    joined(pretty_keys(split_on(hotkey, '+')), "+"@)
}

fn pretty_part(part: &[char]) -> (r: String)
    ensures
        r@ == pretty_key(part@),
{
    let p = trim(part);
    let upper = uppered(p);
    let u = string_of(upper.as_slice());
    if same(u.as_str(), "CTRL") || same(u.as_str(), "CONTROL") {
        "Ctrl".to_owned()
    } else if same(u.as_str(), "ALT") {
        "Alt".to_owned()
    } else if same(u.as_str(), "SHIFT") {
        "Shift".to_owned()
    } else if same(u.as_str(), "WIN") || same(u.as_str(), "SUPER") || same(u.as_str(), "META") {
        "Win".to_owned()
    } else if upper.len() == 1 {
        u
    } else if p.len() == 0 {
        String::new()
    } else {
        let first = slice_subrange(p, 0, 1);
        let rest = slice_subrange(p, 1, p.len());
        assert(first@ =~= p@.take(1));
        assert(rest@ =~= p@.skip(1));
        let first = string_of(first).as_str().to_uppercase();
        let rest = string_of(rest).as_str().to_lowercase();
        cat2(first.as_str(), rest.as_str())
    }
}

/// `CTRL+ALT+1` as a menu shows it: `Ctrl+Alt+1`.
pub fn pretty_hotkey(hotkey: &str) -> (r: String)
    ensures
        r@ == pretty(hotkey@),
{
    let cs = chars_of(hotkey);
    let parts = split_char(cs.as_slice(), '+');
    let ghost want = pretty_keys(split_on(hotkey@, '+'));
    let mut out: Vec<String> = Vec::new();
    let mut i: usize = 0;
    assert(texts(out@) =~= want.take(0));
    while i < parts.len()
        invariant
            i <= parts@.len(),
            parts@.len() == want.len(),
            pieces(parts@) == split_on(hotkey@, '+'),
            want == pretty_keys(split_on(hotkey@, '+')),
            texts(out@) == want.take(i as int),
        decreases parts@.len() - i,
    {
        assert(pieces(parts@)[i as int] == parts@[i as int]@);
        let ghost had = out@;
        out.push(pretty_part(parts[i]));
        assert(texts(out@) =~= texts(had).push(want[i as int]));
        assert(texts(out@) =~= want.take(i as int + 1));
        i += 1;
    }
    assert(want.take(want.len() as int) =~= want);
    join(out.as_slice(), "+")
}

// ---------------------------------------------------------------------------
// The menu
// ---------------------------------------------------------------------------

/// An action: chosen, it runs by name.
pub open spec fn action_entry(action: ActionView, id: int) -> EntryView {
    EntryView::Item {
        id,
        label: action.name,
        detail: match action.hotkey {
            Some(hotkey) => Some(pretty(hotkey)),
            None => None,
        },
        command: action_command(action),
    }
}

pub open spec fn action_command(action: ActionView) -> CommandView {
    CommandView::Cli { args: seq!["run-action"@, action.name], describe: action.name }
}

/// The actions, numbered from 1.
pub open spec fn action_entries(actions: Seq<ActionView>) -> Seq<EntryView> {
    Seq::new(actions.len(), |i: int| action_entry(actions[i], i + 1))
}

/// An input: chosen, it is set on its monitor.
pub open spec fn input_entry(
    monitor: MonitorConfigView,
    input: MonitorInputView,
    id: int,
) -> EntryView {
    EntryView::Item {
        id,
        label: input.display_name(),
        detail: Some(code_text(input.input_code)),
        command: CommandView::Cli {
            args: seq!["set"@, monitor.key, code_text(input.input_code)],
            describe: monitor.label + ": "@ + input.display_name(),
        },
    }
}

/// A monitor's inputs, numbered from `before + 1`.
pub open spec fn submenu(monitor: MonitorConfigView, before: int) -> EntryView {
    EntryView::Submenu {
        label: monitor.label,
        entries: input_entries(monitor, before),
    }
}

pub open spec fn input_entries(monitor: MonitorConfigView, before: int) -> Seq<EntryView> {
    let inputs = offered(monitor.inputs);
    Seq::new(inputs.len(), |k: int| input_entry(monitor, inputs[k], before + k + 1))
}

/// How many ids the inputs of these monitors take.
pub open spec fn inputs_offered(monitors: Seq<MonitorConfigView>) -> int
    decreases monitors.len(),
{
    if monitors.len() == 0 {
        0
    } else {
        inputs_offered(monitors.drop_last()) + offered(monitors.last().inputs).len()
    }
}

/// A submenu for every monitor that has inputs to offer, numbered on from
/// `before`.
pub open spec fn monitor_entries(monitors: Seq<MonitorConfigView>, before: int) -> Seq<EntryView>
    decreases monitors.len(),
{
    if monitors.len() == 0 {
        Seq::empty()
    } else {
        let front = monitors.drop_last();
        let shown = monitor_entries(front, before);
        if offered(monitors.last().inputs).len() == 0 {
            shown
        } else {
            shown.push(submenu(monitors.last(), before + inputs_offered(front)))
        }
    }
}

/// How many ids a configuration takes.
pub open spec fn ids_taken(config: ConfigView) -> int {
    config.actions.len() + inputs_offered(config.monitors)
}

/// What a configuration puts in the menu: actions, then monitors.
pub open spec fn offers(config: ConfigView) -> Seq<EntryView> {
    let actions = action_entries(config.actions);
    let monitors = monitor_entries(config.monitors, config.actions.len() as int);
    if actions.len() == 0 && monitors.len() == 0 {
        seq![EntryView::Note { label: "Nothing configured yet"@ }]
    } else if monitors.len() == 0 {
        actions
    } else if actions.len() == 0 {
        monitors
    } else {
        actions.push(EntryView::Separator) + monitors
    }
}

/// What every menu ends in.
pub open spec fn ending(before: int) -> Seq<EntryView> {
    seq![
        EntryView::Separator,
        EntryView::Item {
            id: before + 1,
            label: "Settings…"@,
            detail: None,
            command: CommandView::OpenSettings,
        },
        EntryView::Item {
            id: before + 2,
            label: "Quit"@,
            detail: None,
            command: CommandView::Quit,
        },
    ]
}

/// The whole menu, from the configuration or from why there is none.
pub open spec fn menu_of(config: Result<ConfigView, Seq<char>>) -> Seq<EntryView> {
    match config {
        Ok(config) => offers(config) + ending(ids_taken(config)),
        Err(why) => seq![EntryView::Note { label: why }] + ending(0),
    }
}

pub open spec fn config_or_why(config: Result<&Config, &str>) -> Result<ConfigView, Seq<char>> {
    match config {
        Ok(config) => Ok(config.deep_view()),
        Err(why) => Err(why@),
    }
}

fn action_item(action: &Action, id: u32) -> (r: Entry)
    ensures
        r.tree() == action_entry(action.deep_view(), id as int),
{
    let detail = match &action.hotkey {
        Some(hotkey) => Some(pretty_hotkey(hotkey.as_str())),
        None => None,
    };
    let mut args: Vec<String> = Vec::new();
    args.push("run-action".to_owned());
    args.push(action.name.clone());
    assert(texts(args@) =~= seq!["run-action"@, action.name@]);
    Entry::Item {
        id,
        label: action.name.clone(),
        detail,
        command: Command::Cli { args, describe: action.name.clone() },
    }
}

fn input_item(monitor: &MonitorConfig, input: &MonitorInput, id: u32) -> (r: Entry)
    ensures
        r.tree() == input_entry(monitor.deep_view(), input.deep_view(), id as int),
{
    let mut args: Vec<String> = Vec::new();
    args.push("set".to_owned());
    args.push(monitor.key.clone());
    args.push(input.input_code.to_string());
    assert(texts(args@) =~= seq!["set"@, monitor.key@, code_text(input.input_code)]);
    let describe = cat3(monitor.label.as_str(), ": ", input.display_name().as_str());
    Entry::Item {
        id,
        label: input.display_name(),
        detail: Some(input.input_code.to_string()),
        command: Command::Cli { args, describe },
    }
}

/// The submenu of a monitor and the last id it takes, or nothing where there
/// is no input to offer.
fn monitor_submenu(monitor: &MonitorConfig, before: u32) -> (r: Option<(Entry, u32)>)
    requires
        before + offered(monitor.deep_view().inputs).len() <= u32::MAX,
    ensures
        match r {
            None => offered(monitor.deep_view().inputs).len() == 0,
            Some((entry, last)) => {
                &&& offered(monitor.deep_view().inputs).len() > 0
                &&& entry.tree() == submenu(monitor.deep_view(), before as int)
                &&& last == before + offered(monitor.deep_view().inputs).len()
            },
        },
{
    let inputs = inputs_to_offer(monitor);
    let ghost all = offered(monitor.deep_view().inputs);
    let ghost want = input_entries(monitor.deep_view(), before as int);
    assert(inputs@.len() == input_views(inputs@).len());
    if inputs.len() == 0 {
        return None;
    }
    let mut entries: Vec<Entry> = Vec::new();
    let mut i: usize = 0;
    assert(trees(entries@) =~= want.take(0));
    while i < inputs.len()
        invariant
            i <= inputs@.len(),
            input_views(inputs@) == all,
            all == offered(monitor.deep_view().inputs),
            want == input_entries(monitor.deep_view(), before as int),
            before + inputs@.len() <= u32::MAX,
            trees(entries@) == want.take(i as int),
        decreases inputs@.len() - i,
    {
        assert(all[i as int] == inputs@[i as int].deep_view());
        let ghost had = entries@;
        entries.push(input_item(monitor, inputs[i], before + (i as u32) + 1));
        assert(trees(entries@) =~= trees(had).push(want[i as int]));
        assert(trees(entries@) =~= want.take(i as int + 1));
        i += 1;
    }
    assert(want.take(want.len() as int) =~= want);
    let label = monitor.label.clone();
    proof {
        lemma_submenu_tree(label, entries);
    }
    let last: u32 = before + inputs.len() as u32;
    Some((Entry::Submenu { label, entries }, last))
}

proof fn lemma_inputs_offered_grows(monitors: Seq<MonitorConfigView>, n: int)
    requires
        0 <= n <= monitors.len(),
    ensures
        0 <= inputs_offered(monitors.take(n)) <= inputs_offered(monitors),
    decreases monitors.len(),
{
    if n < monitors.len() {
        lemma_inputs_offered_grows(monitors.drop_last(), n);
        assert(monitors.drop_last().take(n) =~= monitors.take(n));
    } else {
        assert(monitors.take(n) =~= monitors);
        if n > 0 {
            lemma_inputs_offered_grows(monitors.drop_last(), n - 1);
            assert(monitors.drop_last().take(n - 1) =~= monitors.drop_last());
        }
    }
}

/// The submenus of all monitors, numbered on from `before`, and the last id.
fn monitor_submenus(config: &Config, before: u32) -> (r: (Vec<Entry>, u32))
    requires
        before + inputs_offered(config.deep_view().monitors) <= u32::MAX,
    ensures
        trees(r.0@) == monitor_entries(config.deep_view().monitors, before as int),
        r.1 == before + inputs_offered(config.deep_view().monitors),
{
    let ghost all = config.deep_view().monitors;
    let mut out: Vec<Entry> = Vec::new();
    let mut last: u32 = before;
    let mut i: usize = 0;
    assert(all.take(0) =~= Seq::<MonitorConfigView>::empty());
    assert(trees(out@) =~= monitor_entries(all.take(0), before as int));
    while i < config.monitors.len()
        invariant
            i <= config.monitors@.len(),
            all == config.deep_view().monitors,
            before + inputs_offered(all) <= u32::MAX,
            last == before + inputs_offered(all.take(i as int)),
            trees(out@) == monitor_entries(all.take(i as int), before as int),
        decreases config.monitors@.len() - i,
    {
        let ghost next = all.take(i as int + 1);
        assert(next.drop_last() =~= all.take(i as int));
        assert(next.last() == config.monitors@[i as int].deep_view());
        proof {
            lemma_inputs_offered_grows(all, i as int + 1);
        }
        if let Some((entry, end)) = monitor_submenu(&config.monitors[i], last) {
            let ghost had = out@;
            out.push(entry);
            last = end;
            assert(trees(out@) =~= trees(had).push(entry.tree()));
        }
        i += 1;
    }
    assert(all.take(all.len() as int) =~= all);
    (out, last)
}

/// The whole menu. `config` is the loaded configuration, or why it could not
/// be loaded.
pub fn build(config: Result<&Config, &str>) -> (r: Vec<Entry>)
    requires
        config matches Ok(c) ==> ids_taken(c.deep_view()) + 2 <= u32::MAX,
    ensures
        trees(r@) == menu_of(config_or_why(config)),
{
    let mut entries: Vec<Entry> = Vec::new();
    let mut last: u32 = 0;
    match config {
        Err(why) => {
            entries.push(Entry::Note { label: why.to_owned() });
            assert(trees(entries@) =~= seq![EntryView::Note { label: why@ }]);
        },
        Ok(config) => {
            let ghost view = config.deep_view();
            let ghost want = action_entries(view.actions);
            proof {
                lemma_inputs_offered_grows(view.monitors, 0);
            }
            let mut i: usize = 0;
            assert(trees(entries@) =~= want.take(0));
            while i < config.actions.len()
                invariant
                    i <= config.actions@.len() < u32::MAX,
                    last == i,
                    want == action_entries(config.deep_view().actions),
                    trees(entries@) == want.take(i as int),
                decreases config.actions@.len() - i,
            {
                last += 1;
                let ghost had = entries@;
                entries.push(action_item(&config.actions[i], last));
                assert(trees(entries@) =~= trees(had).push(want[i as int]));
                assert(trees(entries@) =~= want.take(i as int + 1));
                i += 1;
            }
            assert(want.take(want.len() as int) =~= want);

            let (mut monitors, end) = monitor_submenus(config, last);
            last = end;
            let ghost shown = trees(monitors@);
            assert(shown.len() == monitors@.len());
            assert(trees(entries@).len() == entries@.len());
            if monitors.len() > 0 {
                if entries.len() > 0 {
                    let ghost had = entries@;
                    entries.push(Entry::Separator);
                    assert(trees(entries@) =~= trees(had).push(EntryView::Separator));
                }
                let ghost had = entries@;
                let ghost more = monitors@;
                entries.append(&mut monitors);
                assert(trees(entries@) =~= trees(had) + trees(more));
            }
            if entries.len() == 0 {
                entries.push(Entry::Note { label: "Nothing configured yet".to_owned() });
                assert(trees(entries@) =~= seq![
                    EntryView::Note { label: "Nothing configured yet"@ },
                ]);
            }
            assert(trees(entries@) =~= offers(view));
        },
    }
    let ghost had = entries@;
    entries.push(Entry::Separator);
    entries.push(
        Entry::Item {
            id: last + 1,
            label: "Settings…".to_owned(),
            detail: None,
            command: Command::OpenSettings,
        },
    );
    entries.push(
        Entry::Item {
            id: last + 2,
            label: "Quit".to_owned(),
            detail: None,
            command: Command::Quit,
        },
    );
    assert(trees(entries@) =~= trees(had) + ending(last as int));
    entries
}

// ---------------------------------------------------------------------------
// Finding
// ---------------------------------------------------------------------------

/// The command behind an id in one entry.
pub open spec fn found(entry: EntryView, id: int) -> Option<CommandView>
    decreases entry, 0int,
{
    match entry {
        EntryView::Item { id: item, label, detail, command } => if item == id {
            Some(command)
        } else {
            None
        },
        EntryView::Submenu { label, entries } => found_from(entries, 0, id),
        _ => None,
    }
}

/// The command behind an id in the entries from `i` on.
pub open spec fn found_from(entries: Seq<EntryView>, i: int, id: int) -> Option<CommandView>
    decreases entries, entries.len() - i,
{
    if 0 <= i < entries.len() {
        match found(entries[i], id) {
            Some(command) => Some(command),
            None => found_from(entries, i + 1, id),
        }
    } else {
        None
    }
}

pub open spec fn command_view(o: Option<&Command>) -> Option<CommandView> {
    match o {
        Some(c) => Some(c.deep_view()),
        None => None,
    }
}

/// The command behind an id, searching submenus too.
pub fn find(entries: &[Entry], id: u32) -> (r: Option<&Command>)
    ensures
        command_view(r) == found_from(trees(entries@), 0, id as int),
    decreases entries@,
{
    let ghost all = trees(entries@);
    let mut i: usize = 0;
    while i < entries.len()
        invariant
            i <= entries@.len(),
            all == trees(entries@),
            found_from(all, 0, id as int) == found_from(all, i as int, id as int),
        decreases entries@.len() - i,
    {
        assert(all[i as int] == entries@[i as int].tree());
        proof {
            reveal_with_fuel(found, 2);
            reveal_with_fuel(found_from, 2);
        }
        match &entries[i] {
            Entry::Item { id: item, label: _, detail: _, command } => {
                if *item == id {
                    return Some(command);
                }
            },
            Entry::Submenu { label, entries: inner } => {
                proof {
                    lemma_submenu_tree(*label, *inner);
                }
                assert(decreases_to!(entries@ => entries@[i as int]));
                assert(decreases_to!(entries@[i as int] => inner@));
                let below = find(inner.as_slice(), id);
                if below.is_some() {
                    return below;
                }
            },
            _ => {},
        }
        i += 1;
    }
    None
}

// ---------------------------------------------------------------------------
// Laying out
// ---------------------------------------------------------------------------

/// A text as a Windows menu takes it: `&` doubled, because Windows takes a
/// lone one as an accelerator marker and hides it, and tabs as spaces, because
/// a tab starts a new column.
pub open spec fn windows_label(s: Seq<char>) -> Seq<char> {
    replaced(replaced(s, '&', "&&"@), '\t', " "@)
}

/// An item as a Windows menu shows it: the detail right-aligned after a tab.
pub open spec fn windows_item(label: Seq<char>, detail: Option<Seq<char>>) -> Seq<char> {
    match detail {
        Some(d) => windows_label(label) + "\t"@ + windows_label(d),
        None => windows_label(label),
    }
}

fn clean_for_windows(s: &str) -> (r: String)
    ensures
        r@ == windows_label(s@),
{
    replace(replace(s, '&', "&&").as_str(), '\t', " ")
}

/// An item as a Windows menu shows it.
pub fn windows_text(label: &str, detail: Option<&str>) -> (r: String)
    ensures
        r@ == windows_item(label@, opt_str(detail)),
{
    match detail {
        Some(d) => cat3(
            clean_for_windows(label).as_str(),
            "\t",
            clean_for_windows(d).as_str(),
        ),
        None => clean_for_windows(label),
    }
}

/// A text as a D-Bus menu takes it: `_` doubled, because there it marks the
/// accelerator.
pub open spec fn dbus_label(s: Seq<char>) -> Seq<char> {
    replaced(s, '_', "__"@)
}

/// An item as a D-Bus menu shows it: the detail in brackets after the label,
/// since these menus have no column to right-align it in.
pub open spec fn dbus_item(label: Seq<char>, detail: Option<Seq<char>>) -> Seq<char> {
    match detail {
        Some(d) => dbus_label(label) + "   ("@ + dbus_label(d) + ")"@,
        None => dbus_label(label),
    }
}

/// An item as a D-Bus menu (GNOME, KDE) shows it.
pub fn dbus_text(label: &str, detail: Option<&str>) -> (r: String)
    ensures
        r@ == dbus_item(label@, opt_str(detail)),
{
    match detail {
        Some(d) => cat4(
            replace(label, '_', "__").as_str(),
            "   (",
            replace(d, '_', "__").as_str(),
            ")",
        ),
        None => replace(label, '_', "__"),
    }
}

/// No label starts a column of its own: the only tab of an item is the one
/// before its detail.
pub proof fn law_labels_hold_no_tab(s: Seq<char>)
    ensures
        !windows_label(s).contains('\t'),
{
    reveal_strlit(" ");
    lemma_no_tab(replaced(s, '&', "&&"@));
}

proof fn lemma_no_tab(s: Seq<char>)
    ensures
        !replaced(s, '\t', " "@).contains('\t'),
    decreases s.len(),
{
    reveal_strlit(" ");
    if s.len() > 0 {
        let front = replaced(s.drop_last(), '\t', " "@);
        lemma_no_tab(s.drop_last());
        let r = replaced(s, '\t', " "@);
        assert forall|i: int| 0 <= i < r.len() implies r[i] != '\t' by {
            if i < front.len() {
                assert(r[i] == front[i]);
            }
        }
    }
}

// ---------------------------------------------------------------------------
// Ids
// ---------------------------------------------------------------------------

/// The ids in one entry, submenus included.
pub open spec fn entry_ids(entry: EntryView) -> Seq<int>
    decreases entry, 0int,
{
    match entry {
        EntryView::Item { id, label, detail, command } => seq![id],
        EntryView::Submenu { label, entries } => ids_upto(entries, entries.len() as int),
        _ => Seq::empty(),
    }
}

/// The ids in the first `n` entries, in the order in which they stand.
pub open spec fn ids_upto(entries: Seq<EntryView>, n: int) -> Seq<int>
    decreases entries, n,
{
    if 0 < n <= entries.len() {
        ids_upto(entries, n - 1) + entry_ids(entries[n - 1])
    } else {
        Seq::empty()
    }
}

pub open spec fn ids_in(entries: Seq<EntryView>) -> Seq<int> {
    ids_upto(entries, entries.len() as int)
}

/// `n` numbers, one after the other, from `before + 1` on.
pub open spec fn numbers(before: int, n: int) -> Seq<int> {
    Seq::new(
        if n < 0 {
            0
        } else {
            n as nat
        },
        |i: int| before + 1 + i,
    )
}

proof fn lemma_ids_prefix(a: Seq<EntryView>, b: Seq<EntryView>, n: int)
    requires
        0 <= n <= a.len(),
        n <= b.len(),
        forall|j: int| 0 <= j < n ==> a[j] == b[j],
    ensures
        ids_upto(a, n) == ids_upto(b, n),
    decreases n,
{
    if n > 0 {
        lemma_ids_prefix(a, b, n - 1);
    }
}

proof fn lemma_ids_add(a: Seq<EntryView>, b: Seq<EntryView>, n: int)
    requires
        0 <= n <= b.len(),
    ensures
        ids_upto(a + b, a.len() + n) == ids_in(a) + ids_upto(b, n),
    decreases n,
{
    if n == 0 {
        lemma_ids_prefix(a + b, a, a.len() as int);
        assert(ids_upto(b, 0) =~= Seq::<int>::empty());
        assert(ids_in(a) + ids_upto(b, 0) =~= ids_in(a));
    } else {
        lemma_ids_add(a, b, n - 1);
        assert((a + b)[a.len() + n - 1] == b[n - 1]);
        assert(ids_upto(a + b, a.len() + n) =~= ids_in(a) + ids_upto(b, n));
    }
}

proof fn lemma_action_ids(actions: Seq<ActionView>, n: int)
    requires
        0 <= n <= actions.len(),
    ensures
        ids_upto(action_entries(actions), n) == numbers(0, n),
    decreases n,
{
    if n > 0 {
        lemma_action_ids(actions, n - 1);
        reveal_with_fuel(entry_ids, 2);
        assert(entry_ids(action_entries(actions)[n - 1]) =~= seq![n]);
        assert(ids_upto(action_entries(actions), n) =~= numbers(0, n));
    } else {
        assert(numbers(0, 0) =~= Seq::<int>::empty());
    }
}

proof fn lemma_input_ids(monitor: MonitorConfigView, before: int, n: int)
    requires
        0 <= n <= offered(monitor.inputs).len(),
    ensures
        ids_upto(input_entries(monitor, before), n) == numbers(before, n),
    decreases n,
{
    if n > 0 {
        lemma_input_ids(monitor, before, n - 1);
        reveal_with_fuel(entry_ids, 2);
        assert(entry_ids(input_entries(monitor, before)[n - 1]) =~= seq![before + n]);
        assert(ids_upto(input_entries(monitor, before), n) =~= numbers(before, n));
    } else {
        assert(numbers(before, 0) =~= Seq::<int>::empty());
    }
}

proof fn lemma_monitor_ids(monitors: Seq<MonitorConfigView>, before: int)
    ensures
        ids_in(monitor_entries(monitors, before)) == numbers(before, inputs_offered(monitors)),
        inputs_offered(monitors) >= 0,
        monitor_entries(monitors, before).len() == 0 <==> inputs_offered(monitors) == 0,
    decreases monitors.len(),
{
    if monitors.len() == 0 {
        assert(numbers(before, 0) =~= Seq::<int>::empty());
    } else {
        let front = monitors.drop_last();
        let last = monitors.last();
        let shown = monitor_entries(front, before);
        let n = offered(last.inputs).len() as int;
        lemma_monitor_ids(front, before);
        if n > 0 {
            let from = before + inputs_offered(front);
            let all = shown.push(submenu(last, from));
            lemma_input_ids(last, from, n);
            lemma_ids_prefix(all, shown, shown.len() as int);
            reveal_with_fuel(entry_ids, 2);
            assert(entry_ids(submenu(last, from)) == numbers(from, n));
            assert(ids_in(all) =~= ids_in(shown) + numbers(from, n));
            assert(numbers(before, inputs_offered(front)) + numbers(from, n) =~= numbers(
                before,
                inputs_offered(monitors),
            ));
        }
    }
}

proof fn lemma_ending_ids(before: int)
    ensures
        ids_in(ending(before)) == numbers(before, 2),
{
    reveal_with_fuel(ids_upto, 4);
    assert(ids_in(ending(before)) =~= numbers(before, 2));
}

proof fn lemma_offers_ids(config: ConfigView)
    ensures
        ids_in(offers(config)) == numbers(0, ids_taken(config)),
        ids_taken(config) >= 0,
{
    let actions = action_entries(config.actions);
    let count = config.actions.len() as int;
    let monitors = monitor_entries(config.monitors, count);
    lemma_action_ids(config.actions, count);
    lemma_monitor_ids(config.monitors, count);
    let joint = numbers(0, count) + numbers(count, inputs_offered(config.monitors));
    assert(joint =~= numbers(0, ids_taken(config)));
    if actions.len() == 0 && monitors.len() == 0 {
        reveal_with_fuel(ids_upto, 2);
        assert(ids_in(offers(config)) =~= Seq::<int>::empty());
        assert(numbers(0, ids_taken(config)) =~= Seq::<int>::empty());
    } else if monitors.len() == 0 {
    } else if actions.len() == 0 {
        assert(numbers(0, 0) + numbers(0, inputs_offered(config.monitors)) =~= numbers(
            0,
            inputs_offered(config.monitors),
        ));
    } else {
        let separated = actions.push(EntryView::Separator);
        lemma_ids_prefix(separated, actions, actions.len() as int);
        reveal_with_fuel(entry_ids, 2);
        assert(entry_ids(separated.last()) =~= Seq::<int>::empty());
        assert(ids_in(separated) =~= ids_in(actions));
        lemma_ids_add(separated, monitors, monitors.len() as int);
    }
}

/// How many ids a menu takes before those of its ending.
pub open spec fn ids_before_ending(config: Result<ConfigView, Seq<char>>) -> int {
    match config {
        Ok(config) => ids_taken(config),
        Err(_) => 0,
    }
}

/// What a menu shows before its ending.
pub open spec fn shown_first(config: Result<ConfigView, Seq<char>>) -> Seq<EntryView> {
    match config {
        Ok(config) => offers(config),
        Err(why) => seq![EntryView::Note { label: why }],
    }
}

proof fn lemma_menu_ids(config: Result<ConfigView, Seq<char>>)
    ensures
        menu_of(config) == shown_first(config) + ending(ids_before_ending(config)),
        ids_before_ending(config) >= 0,
        ids_in(shown_first(config)) == numbers(0, ids_before_ending(config)),
        ids_in(menu_of(config)) == numbers(0, ids_before_ending(config) + 2),
{
    let n = ids_before_ending(config);
    match config {
        Ok(c) => {
            lemma_offers_ids(c);
        },
        Err(why) => {
            reveal_with_fuel(ids_upto, 2);
            assert(ids_in(shown_first(config)) =~= Seq::<int>::empty());
            assert(numbers(0, 0) =~= Seq::<int>::empty());
        },
    }
    lemma_ending_ids(n);
    lemma_ids_add(shown_first(config), ending(n), ending(n).len() as int);
    assert(numbers(0, n) + numbers(n, 2) =~= numbers(0, n + 2));
}

proof fn lemma_ids_upto_contains(entries: Seq<EntryView>, n: int, j: int, id: int)
    requires
        0 <= j < n <= entries.len(),
        entry_ids(entries[j]).contains(id),
    ensures
        ids_upto(entries, n).contains(id),
    decreases n,
{
    let front = ids_upto(entries, n - 1);
    let here = entry_ids(entries[n - 1]);
    if j < n - 1 {
        lemma_ids_upto_contains(entries, n - 1, j, id);
        let k = choose|k: int| 0 <= k < front.len() && front[k] == id;
        assert((front + here)[k] == id);
    } else {
        let k = choose|k: int| 0 <= k < here.len() && here[k] == id;
        assert((front + here)[front.len() + k] == id);
    }
}

proof fn lemma_ids_upto_from(entries: Seq<EntryView>, n: int, id: int) -> (j: int)
    requires
        0 <= n <= entries.len(),
        ids_upto(entries, n).contains(id),
    ensures
        0 <= j < n,
        entry_ids(entries[j]).contains(id),
    decreases n,
{
    let all = ids_upto(entries, n);
    let k = choose|k: int| 0 <= k < all.len() && all[k] == id;
    let front = ids_upto(entries, n - 1);
    let here = entry_ids(entries[n - 1]);
    if k < front.len() {
        assert(front[k] == id);
        lemma_ids_upto_from(entries, n - 1, id)
    } else {
        assert(here[k - front.len()] == id);
        n - 1
    }
}

/// An entry has a command behind an id exactly where it has that id.
proof fn lemma_found(entry: EntryView, id: int)
    ensures
        found(entry, id) is Some <==> entry_ids(entry).contains(id),
    decreases entry, 0int,
{
    reveal_with_fuel(found, 2);
    reveal_with_fuel(entry_ids, 2);
    match entry {
        EntryView::Item { id: item, label, detail, command } => {
            assert(entry_ids(entry)[0] == item);
        },
        EntryView::Submenu { label, entries } => {
            lemma_found_from(entries, 0, id);
            if found_from(entries, 0, id) is Some {
                let j = choose|j: int|
                    0 <= j < entries.len() && #[trigger] entry_ids(entries[j]).contains(id);
                lemma_ids_upto_contains(entries, entries.len() as int, j, id);
            }
            if ids_in(entries).contains(id) {
                let j = lemma_ids_upto_from(entries, entries.len() as int, id);
                assert(entry_ids(entries[j]).contains(id));
            }
        },
        _ => {},
    }
}

proof fn lemma_found_from(entries: Seq<EntryView>, i: int, id: int)
    requires
        0 <= i <= entries.len(),
    ensures
        found_from(entries, i, id) is Some <==> exists|j: int|
            i <= j < entries.len() && #[trigger] entry_ids(entries[j]).contains(id),
    decreases entries, entries.len() - i,
{
    if i < entries.len() {
        lemma_found(entries[i], id);
        lemma_found_from(entries, i + 1, id);
        if found(entries[i], id) is Some {
            assert(entry_ids(entries[i]).contains(id));
        }
    }
}

/// Entries that do not have an id are passed over.
proof fn lemma_found_later(entries: Seq<EntryView>, k: int, id: int)
    requires
        0 <= k <= entries.len(),
        forall|j: int| 0 <= j < k ==> !#[trigger] entry_ids(entries[j]).contains(id),
    ensures
        found_from(entries, 0, id) == found_from(entries, k, id),
    decreases k,
{
    if k > 0 {
        lemma_found_later(entries, k - 1, id);
        lemma_found(entries[k - 1], id);
        assert(!entry_ids(entries[k - 1]).contains(id));
    }
}

/// Every id of a menu is distinct and none is zero: they run from 1 on. Every
/// one of them is found, and nothing else is.
pub proof fn law_ids_are_unique_and_findable(config: Result<ConfigView, Seq<char>>, id: int)
    ensures
        ids_in(menu_of(config)) == numbers(0, ids_before_ending(config) + 2),
        ids_in(menu_of(config)).no_duplicates(),
        !ids_in(menu_of(config)).contains(0),
        found_from(menu_of(config), 0, id) is Some <==> 1 <= id <= ids_before_ending(config) + 2,
        found_from(menu_of(config), 0, id) is Some <==> ids_in(menu_of(config)).contains(id),
{
    let menu = menu_of(config);
    let n = ids_before_ending(config) + 2;
    lemma_menu_ids(config);
    lemma_found_from(menu, 0, id);
    if found_from(menu, 0, id) is Some {
        let j = choose|j: int| 0 <= j < menu.len() && #[trigger] entry_ids(menu[j]).contains(id);
        lemma_ids_upto_contains(menu, menu.len() as int, j, id);
        let k = choose|k: int| 0 <= k < n && numbers(0, n)[k] == id;
    }
    if 1 <= id <= n {
        assert(numbers(0, n)[id - 1] == id);
        let j = lemma_ids_upto_from(menu, menu.len() as int, id);
        assert(entry_ids(menu[j]).contains(id));
    }
}

/// Whatever becomes of the configuration, the menu offers the settings and to
/// quit.
pub proof fn law_settings_and_quit_are_always_offered(config: Result<ConfigView, Seq<char>>)
    ensures
        found_from(menu_of(config), 0, ids_before_ending(config) + 1) == Some(
            CommandView::OpenSettings,
        ),
        found_from(menu_of(config), 0, ids_before_ending(config) + 2) == Some(CommandView::Quit),
{
    let menu = menu_of(config);
    let first = shown_first(config);
    let n = ids_before_ending(config);
    lemma_menu_ids(config);
    assert forall|j: int, id: int|
        0 <= j < first.len() && id > n implies !#[trigger] entry_ids(menu[j]).contains(id) by {
        assert(menu[j] == first[j]);
        if entry_ids(first[j]).contains(id) {
            lemma_ids_upto_contains(first, first.len() as int, j, id);
            let k = choose|k: int| 0 <= k < n && numbers(0, n)[k] == id;
        }
    }
    lemma_found_later(menu, first.len() as int, n + 1);
    lemma_found_later(menu, first.len() as int, n + 2);
    let at = first.len() as int;
    assert(menu[at] == ending(n)[0]);
    assert(menu[at + 1] == ending(n)[1]);
    assert(menu[at + 2] == ending(n)[2]);
    reveal_with_fuel(found_from, 4);
    reveal_with_fuel(found, 4);
}

/// An action's item runs that action, by name.
pub proof fn law_actions_run_by_name(config: ConfigView, i: int)
    requires
        0 <= i < config.actions.len(),
    ensures
        found_from(menu_of(Ok(config)), 0, i + 1) == Some(action_command(config.actions[i])),
{
    let menu = menu_of(Ok(config));
    let actions = action_entries(config.actions);
    assert forall|j: int| 0 <= j < actions.len() implies menu[j] == actions[j] by {}
    assert forall|j: int| 0 <= j < i implies !#[trigger] entry_ids(menu[j]).contains(i + 1) by {
        assert(menu[j] == action_entry(config.actions[j], j + 1));
        reveal_with_fuel(entry_ids, 2);
    }
    lemma_found_later(menu, i, i + 1);
    reveal_with_fuel(found_from, 2);
    reveal_with_fuel(found, 2);
    assert(menu[i] == action_entry(config.actions[i], i + 1));
}

// ---------------------------------------------------------------------------
// Items
// ---------------------------------------------------------------------------

/// The items in one entry, submenus included: each id with its command.
pub open spec fn entry_items(entry: EntryView) -> Seq<(int, CommandView)>
    decreases entry, 0int,
{
    match entry {
        EntryView::Item { id, label, detail, command } => seq![(id, command)],
        EntryView::Submenu { label, entries } => items_upto(entries, entries.len() as int),
        _ => Seq::empty(),
    }
}

/// The items in the first `n` entries, in the order in which they stand.
pub open spec fn items_upto(entries: Seq<EntryView>, n: int) -> Seq<(int, CommandView)>
    decreases entries, n,
{
    if 0 < n <= entries.len() {
        items_upto(entries, n - 1) + entry_items(entries[n - 1])
    } else {
        Seq::empty()
    }
}

pub open spec fn items_in(entries: Seq<EntryView>) -> Seq<(int, CommandView)> {
    items_upto(entries, entries.len() as int)
}

/// The ids are those of the items.
proof fn lemma_entry_item_ids(entry: EntryView)
    ensures
        entry_items(entry).len() == entry_ids(entry).len(),
        forall|k: int|
            0 <= k < entry_ids(entry).len() ==> (#[trigger] entry_items(entry)[k]).0 == entry_ids(
                entry,
            )[k],
    decreases entry, 0int,
{
    reveal_with_fuel(entry_ids, 2);
    reveal_with_fuel(entry_items, 2);
    if let EntryView::Submenu { label, entries } = entry {
        lemma_item_ids(entries, entries.len() as int);
    }
}

proof fn lemma_item_ids(entries: Seq<EntryView>, n: int)
    ensures
        items_upto(entries, n).len() == ids_upto(entries, n).len(),
        forall|k: int|
            0 <= k < ids_upto(entries, n).len() ==> (#[trigger] items_upto(entries, n)[k]).0
                == ids_upto(entries, n)[k],
    decreases entries, n,
{
    if 0 < n <= entries.len() {
        let front = items_upto(entries, n - 1);
        lemma_item_ids(entries, n - 1);
        lemma_entry_item_ids(entries[n - 1]);
        assert forall|k: int| 0 <= k < ids_upto(entries, n).len() implies (#[trigger] items_upto(
            entries,
            n,
        )[k]).0 == ids_upto(entries, n)[k] by {
            if k < front.len() {
                assert(front[k].0 == ids_upto(entries, n - 1)[k]);
            } else {
                assert(entry_items(entries[n - 1])[k - front.len()].0 == entry_ids(
                    entries[n - 1],
                )[k - front.len()]);
            }
        }
    }
}

proof fn lemma_items_upto_contain(
    entries: Seq<EntryView>,
    n: int,
    j: int,
    item: (int, CommandView),
)
    requires
        0 <= j < n <= entries.len(),
        entry_items(entries[j]).contains(item),
    ensures
        items_upto(entries, n).contains(item),
    decreases n,
{
    let front = items_upto(entries, n - 1);
    let here = entry_items(entries[n - 1]);
    if j < n - 1 {
        lemma_items_upto_contain(entries, n - 1, j, item);
        let k = choose|k: int| 0 <= k < front.len() && front[k] == item;
        assert((front + here)[k] == item);
    } else {
        let k = choose|k: int| 0 <= k < here.len() && here[k] == item;
        assert((front + here)[front.len() + k] == item);
    }
}

/// What is found behind an id is an item with that id.
proof fn lemma_found_item(entry: EntryView, id: int)
    ensures
        found(entry, id) matches Some(command) ==> entry_items(entry).contains((id, command)),
    decreases entry, 0int,
{
    reveal_with_fuel(found, 2);
    reveal_with_fuel(entry_items, 2);
    match entry {
        EntryView::Item { id: item, label, detail, command } => {
            assert(entry_items(entry)[0] == (item, command));
        },
        EntryView::Submenu { label, entries } => {
            lemma_found_item_from(entries, 0, id);
        },
        _ => {},
    }
}

proof fn lemma_found_item_from(entries: Seq<EntryView>, i: int, id: int)
    requires
        0 <= i <= entries.len(),
    ensures
        found_from(entries, i, id) matches Some(command) ==> items_in(entries).contains(
            (id, command),
        ),
    decreases entries, entries.len() - i,
{
    if i < entries.len() {
        lemma_found_item(entries[i], id);
        lemma_found_item_from(entries, i + 1, id);
        if let Some(command) = found(entries[i], id) {
            lemma_items_upto_contain(entries, entries.len() as int, i, (id, command));
        }
    }
}

/// Every item of a menu is found by its id: what an id finds is the command of
/// the very item that has it, in whichever submenu that stands.
pub proof fn law_an_id_finds_its_own_item(config: Result<ConfigView, Seq<char>>, k: int)
    requires
        0 <= k < items_in(menu_of(config)).len(),
    ensures
        found_from(menu_of(config), 0, items_in(menu_of(config))[k].0) == Some(
            items_in(menu_of(config))[k].1,
        ),
{
    let menu = menu_of(config);
    let items = items_in(menu);
    let (id, command) = items[k];
    lemma_item_ids(menu, menu.len() as int);
    law_ids_are_unique_and_findable(config, id);
    assert(ids_in(menu)[k] == id);
    lemma_found_item_from(menu, 0, id);
    let other = (id, found_from(menu, 0, id)->0);
    let at = choose|at: int| 0 <= at < items.len() && items[at] == other;
    assert(ids_in(menu)[at] == items[at].0);
}

/// The same by where an item stands: in the menu itself, or in a submenu.
pub proof fn law_an_item_is_found_where_it_stands(
    config: Result<ConfigView, Seq<char>>,
    j: int,
    m: int,
)
    requires
        0 <= j < menu_of(config).len(),
    ensures
        match menu_of(config)[j] {
            EntryView::Item { id, label, detail, command } => found_from(menu_of(config), 0, id)
                == Some(command),
            EntryView::Submenu { label, entries } => 0 <= m < entries.len() ==> (entries[m] matches
                EntryView::Item { id, label, detail, command } ==> found_from(
                menu_of(config),
                0,
                id,
            ) == Some(command)),
            _ => true,
        },
{
    let menu = menu_of(config);
    reveal_with_fuel(entry_items, 2);
    match menu[j] {
        EntryView::Item { id, label, detail, command } => {
            assert(entry_items(menu[j])[0] == (id, command));
            lemma_items_upto_contain(menu, menu.len() as int, j, (id, command));
            lemma_its_command(config, id, command);
        },
        EntryView::Submenu { label: title, entries } => {
            if 0 <= m < entries.len() {
                if let EntryView::Item { id, label, detail, command } = entries[m] {
                    assert(entry_items(entries[m])[0] == (id, command));
                    lemma_items_upto_contain(entries, entries.len() as int, m, (id, command));
                    lemma_items_upto_contain(menu, menu.len() as int, j, (id, command));
                    lemma_its_command(config, id, command);
                }
            }
        },
        _ => {},
    }
}

proof fn lemma_its_command(
    config: Result<ConfigView, Seq<char>>,
    id: int,
    command: CommandView,
)
    requires
        items_in(menu_of(config)).contains((id, command)),
    ensures
        found_from(menu_of(config), 0, id) == Some(command),
{
    let items = items_in(menu_of(config));
    let k = choose|k: int| 0 <= k < items.len() && items[k] == (id, command);
    law_an_id_finds_its_own_item(config, k);
}

// ---------------------------------------------------------------------------
// Laws of what is shown
// ---------------------------------------------------------------------------

/// An input has a name of its own where someone gave it one that says more than
/// the standard does: not blank, and not the standard name in either case.
pub proof fn law_a_name_of_its_own_says_more(input: MonitorInputView)
    ensures
        is_named()(input) <==> (input.label matches Some(label) && trimmed(label).len() > 0 && !(
        standard_name(input.input_code) matches Some(standard) && spelled_alike(
            standard,
            trimmed(label),
        ))),
{
    if input.label is Some && standard_name(input.input_code) is Some {
        law_nothing_but_case_is_ignored(
            standard_name(input.input_code)->0,
            trimmed(input.label->0),
        );
    }
}

/// Where no input has a name of its own, all of them are offered.
pub proof fn law_without_names_all_inputs_are_offered(inputs: Seq<MonitorInputView>)
    requires
        forall|i: int| 0 <= i < inputs.len() ==> !is_named()(#[trigger] inputs[i]),
    ensures
        offered(inputs) == inputs,
{
    lemma_filter_no_one(inputs, is_named());
}

/// A monitor with inputs has a submenu under its label, with one entry for each
/// input offered, and each entry sets that input on that monitor.
pub proof fn law_every_monitor_has_its_inputs(config: ConfigView, i: int) -> (j: int)
    requires
        0 <= i < config.monitors.len(),
        offered(config.monitors[i].inputs).len() > 0,
    ensures
        0 <= j < menu_of(Ok(config)).len(),
        menu_of(Ok(config))[j] matches EntryView::Submenu { label, entries } && {
            let m = config.monitors[i];
            let inputs = offered(m.inputs);
            &&& label == m.label
            &&& entries.len() == inputs.len()
            &&& forall|k: int|
                0 <= k < inputs.len() ==> (#[trigger] entries[k] matches EntryView::Item {
                    id,
                    label: shown,
                    detail,
                    command,
                } && shown == inputs[k].display_name() && (command matches CommandView::Cli {
                    args,
                    describe,
                } && args == seq!["set"@, m.key, code_text(inputs[k].input_code)]))
        },
{
    let before = config.actions.len() as int;
    let k = lemma_has_submenu(config.monitors, before, i);
    let shown = monitor_entries(config.monitors, before);
    if config.actions.len() == 0 {
        assert(offers(config) == shown);
        assert(menu_of(Ok(config))[k] == shown[k]);
        k
    } else {
        let actions = action_entries(config.actions);
        assert(offers(config) == actions.push(EntryView::Separator) + shown);
        let at = actions.len() + 1 + k;
        assert(menu_of(Ok(config))[at] == shown[k]);
        at
    }
}

proof fn lemma_has_submenu(monitors: Seq<MonitorConfigView>, before: int, i: int) -> (k: int)
    requires
        0 <= i < monitors.len(),
        offered(monitors[i].inputs).len() > 0,
    ensures
        0 <= k < monitor_entries(monitors, before).len(),
        exists|from: int| monitor_entries(monitors, before)[k] == #[trigger] submenu(
            monitors[i],
            from,
        ),
    decreases monitors.len(),
{
    let front = monitors.drop_last();
    let shown = monitor_entries(front, before);
    if i == monitors.len() - 1 {
        let from = before + inputs_offered(front);
        assert(monitor_entries(monitors, before)[shown.len() as int] == submenu(monitors[i], from));
        shown.len() as int
    } else {
        assert(front[i] == monitors[i]);
        let k = lemma_has_submenu(front, before, i);
        assert(monitor_entries(monitors, before)[k] == shown[k]);
        k
    }
}

/// There are as many submenus as monitors with inputs to offer.
pub proof fn law_a_monitor_without_inputs_is_not_shown(
    monitors: Seq<MonitorConfigView>,
    before: int,
)
    ensures
        monitor_entries(monitors, before).len() == monitors.filter(
            |m: MonitorConfigView| offered(m.inputs).len() > 0,
        ).len(),
    decreases monitors.len(),
{
    reveal(Seq::filter);
    if monitors.len() > 0 {
        law_a_monitor_without_inputs_is_not_shown(monitors.drop_last(), before);
    }
}

/// An action is run by its own name, and shown with its hotkey if it has one.
pub proof fn law_an_action_is_shown_and_run_by_name(action: ActionView, id: int)
    ensures
        action_entry(action, id) matches EntryView::Item { id: shown_id, label, detail, command } && {
            &&& shown_id == id
            &&& label == action.name
            &&& detail is Some <==> action.hotkey is Some
            &&& command matches CommandView::Cli { args, describe } && args == seq![
                "run-action"@,
                action.name,
            ] && describe == action.name
        },
{
}

/// Hotkeys are shown part by part, in the order they are written.
pub proof fn law_a_hotkey_is_shown_part_by_part(a: Seq<char>, b: Seq<char>)
    ensures
        !a.contains('+') ==> pretty(a) == pretty_key(a),
        !b.contains('+') ==> pretty(a + seq!['+'] + b) == pretty(a) + seq!['+'] + pretty_key(b),
{
    reveal_strlit("+");
    assert("+"@ =~= seq!['+']);
    if !a.contains('+') {
        law_a_text_without_separator_is_whole(a, '+');
        assert(pretty_keys(seq![a]) =~= seq![pretty_key(a)]);
    }
    if !b.contains('+') {
        law_a_text_splits_at_a_separator(a, '+', b);
        law_a_text_without_separator_is_whole(b, '+');
        lemma_split_on_nonempty(a, '+');
        let parts = split_on(a, '+') + seq![b];
        assert(pretty_keys(parts).drop_last() =~= pretty_keys(split_on(a, '+')));
        assert(pretty_keys(parts).last() == pretty_key(b));
    }
}

/// A modifier is shown by its usual name, however it was written.
pub proof fn law_a_modifier_is_shown_by_its_usual_name(part: Seq<char>)
    ensures
        spelled_alike(trimmed(part), "CTRL"@) || spelled_alike(trimmed(part), "CONTROL"@)
            ==> pretty_key(part) == "Ctrl"@,
        spelled_alike(trimmed(part), "ALT"@) ==> pretty_key(part) == "Alt"@,
        spelled_alike(trimmed(part), "SHIFT"@) ==> pretty_key(part) == "Shift"@,
        spelled_alike(trimmed(part), "WIN"@) || spelled_alike(trimmed(part), "SUPER"@)
            || spelled_alike(trimmed(part), "META"@) ==> pretty_key(part) == "Win"@,
        trimmed(part).len() == 0 ==> pretty_key(part).len() == 0,
        trimmed(part).len() == 1 ==> pretty_key(part) == upper_all(trimmed(part)),
{
    let p = trimmed(part);
    reveal_strlit("CTRL");
    reveal_strlit("CONTROL");
    reveal_strlit("ALT");
    reveal_strlit("SHIFT");
    reveal_strlit("WIN");
    reveal_strlit("SUPER");
    reveal_strlit("META");
    law_either_case_will_do(p, "CTRL"@);
    law_either_case_will_do(p, "CONTROL"@);
    law_either_case_will_do(p, "ALT"@);
    law_either_case_will_do(p, "SHIFT"@);
    law_either_case_will_do(p, "WIN"@);
    law_either_case_will_do(p, "SUPER"@);
    law_either_case_will_do(p, "META"@);
    assert(upper_all("CTRL"@) =~= "CTRL"@);
    assert(upper_all("CONTROL"@) =~= "CONTROL"@);
    assert(upper_all("ALT"@) =~= "ALT"@);
    assert(upper_all("SHIFT"@) =~= "SHIFT"@);
    assert(upper_all("WIN"@) =~= "WIN"@);
    assert(upper_all("SUPER"@) =~= "SUPER"@);
    assert(upper_all("META"@) =~= "META"@);
    assert("CTRL"@.len() == 4 && "CONTROL"@.len() == 7 && "ALT"@.len() == 3);
    assert("SHIFT"@.len() == 5 && "WIN"@.len() == 3 && "SUPER"@.len() == 5 && "META"@.len() == 4);
    assert("ALT"@[0] == 'A' && "WIN"@[0] == 'W' && "CTRL"@[0] == 'C' && "META"@[0] == 'M');
    assert("SHIFT"@[1] == 'H' && "SUPER"@[1] == 'U');
    assert(upper_all(p).len() == p.len());
    if p.len() == 0 {
        assert(upper_all(p).len() == 0);
    }
}

/// In a Windows label an ampersand stands twice, where one would underline the
/// next letter, and a label without one or a tab is left alone.
pub proof fn law_an_ampersand_stands_twice(a: Seq<char>, b: Seq<char>)
    ensures
        windows_label(a + seq!['&'] + b) == windows_label(a) + seq!['&', '&'] + windows_label(b),
        !a.contains('&') && !a.contains('\t') ==> windows_label(a) == a,
{
    reveal_strlit("&&");
    assert("&&"@ =~= seq!['&', '&']);
    let x = replaced(a, '&', "&&"@);
    let y = replaced(b, '&', "&&"@);
    law_a_character_is_replaced_everywhere(a, '&', b, "&&"@);
    lemma_replaced_apart(x, seq!['&', '&'], '\t', " "@);
    lemma_replaced_apart(x + seq!['&', '&'], y, '\t', " "@);
    law_a_character_is_replaced_everywhere(seq!['&', '&'], '\t', Seq::empty(), " "@);
    law_a_character_is_replaced_everywhere(a, '\t', Seq::empty(), " "@);
}

proof fn lemma_replaced_apart(a: Seq<char>, b: Seq<char>, c: char, with: Seq<char>)
    ensures
        replaced(a + b, c, with) == replaced(a, c, with) + replaced(b, c, with),
    decreases b.len(),
{
    let s = a + b;
    if b.len() == 0 {
        assert(s =~= a);
        assert(replaced(s, c, with) =~= replaced(a, c, with) + replaced(b, c, with));
    } else {
        lemma_replaced_apart(a, b.drop_last(), c, with);
        assert(s.drop_last() =~= a + b.drop_last());
        assert(s.last() == b.last());
        assert(replaced(s, c, with) =~= replaced(a, c, with) + replaced(b, c, with));
    }
}

/// In a D-Bus label an underscore stands twice, and a label without one is left
/// alone. What is told beside a label stands behind it.
pub proof fn law_an_underscore_stands_twice(a: Seq<char>, b: Seq<char>)
    ensures
        dbus_label(a + seq!['_'] + b) == dbus_label(a) + seq!['_', '_'] + dbus_label(b),
        !a.contains('_') ==> dbus_label(a) == a,
        dbus_item(a, None) == dbus_label(a) && windows_item(a, None) == windows_label(a),
        dbus_label(a).is_prefix_of(dbus_item(a, Some(b))) && has_text(
            dbus_item(a, Some(b)),
            dbus_label(b),
        ),
        windows_item(a, Some(b)) == windows_label(a) + seq!['\t'] + windows_label(b),
{
    reveal_strlit("__");
    reveal_strlit("\t");
    assert("\t"@ =~= seq!['\t']);
    assert("__"@ =~= seq!['_', '_']);
    law_a_character_is_replaced_everywhere(a, '_', b, "__"@);
    lemma_has_text_between(dbus_label(a) + "   ("@, dbus_label(b), ")"@);
    assert(dbus_item(a, Some(b)).subrange(0, dbus_label(a).len() as int) =~= dbus_label(a));
}

} // verus!

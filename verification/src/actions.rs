//! User-defined actions: a name, a sequence of steps, and an optional hotkey.
//!
//! Steps run in order and the outcome of each is reported. A failing step
//! stops the rest, because the later steps usually assume the earlier ones
//! happened.

use vstd::prelude::*;

use crate::seqs::{
    first_some, lemma_first_some_here, lemma_first_some_is_none, lemma_first_some_none,
    lemma_sorted_texts_permute, sort_texts, sorted_texts,
};
use crate::text::{
    ascii_alphanumeric, ascii_lower, ascii_upper, cat2, cat3, cat4, cat6, cat7, chars_of, copy_opt,
    copy_texts, eq_ignore_case, has_text, is_ascii_alphanumeric, is_blank, join, joined,
    law_a_blank_text_is_all_white_space, law_nothing_but_case_is_ignored, lemma_has_text_between,
    opt_text, pieces, same, same_ignoring_case, spelled_alike, split_char, split_on, string_of, strip_end, stripped_end, texts,
    to_ascii_lower, trim, trimmed, trimmed_end, trimmed_start, upper_all, uppered, white_space,
};
use crate::types::{code_text, opt_str, InputCode};

verus! {

/// One thing an action does.
#[allow(inconsistent_fields)]
#[derive(Debug, PartialEq, Eq)]
pub enum ActionStep {
    /// Point every configured monitor at a destination.
    Switch { destination: String },
    /// Set one monitor to one input.
    SetInput { monitor: String, code: InputCode },
    /// Flip one monitor between two inputs.
    ToggleInput { monitor: String, between: [InputCode; 2] },
    /// Move windows off a monitor without detaching it.
    Sweep { monitor: Option<String> },
    /// Put windows back where a sweep found them.
    RestoreWindows { monitor: Option<String> },
    /// Detach a monitor from this desktop (experimental).
    Release { monitor: Option<String> },
    /// Reattach a monitor this computer released (experimental).
    Claim { monitor: Option<String> },
    /// Make a monitor the primary display (experimental).
    Primary { monitor: Option<String> },
    /// Run any program. Arguments are an explicit list, never a shell string.
    Run { command: String, args: Vec<String> },
}

#[allow(inconsistent_fields)]
pub enum ActionStepView {
    Switch { destination: Seq<char> },
    SetInput { monitor: Seq<char>, code: InputCode },
    ToggleInput { monitor: Seq<char>, first: InputCode, second: InputCode },
    Sweep { monitor: Option<Seq<char>> },
    RestoreWindows { monitor: Option<Seq<char>> },
    Release { monitor: Option<Seq<char>> },
    Claim { monitor: Option<Seq<char>> },
    Primary { monitor: Option<Seq<char>> },
    Run { command: Seq<char>, args: Seq<Seq<char>> },
}

impl DeepView for ActionStep {
    type V = ActionStepView;

    open spec fn deep_view(&self) -> ActionStepView {
        match self {
            ActionStep::Switch { destination } => ActionStepView::Switch {
                destination: destination@,
            },
            ActionStep::SetInput { monitor, code } => ActionStepView::SetInput {
                monitor: monitor@,
                code: *code,
            },
            ActionStep::ToggleInput { monitor, between } => ActionStepView::ToggleInput {
                monitor: monitor@,
                first: between@[0],
                second: between@[1],
            },
            ActionStep::Sweep { monitor } => ActionStepView::Sweep { monitor: opt_text(*monitor) },
            ActionStep::RestoreWindows { monitor } => ActionStepView::RestoreWindows {
                monitor: opt_text(*monitor),
            },
            ActionStep::Release { monitor } => ActionStepView::Release {
                monitor: opt_text(*monitor),
            },
            ActionStep::Claim { monitor } => ActionStepView::Claim { monitor: opt_text(*monitor) },
            ActionStep::Primary { monitor } => ActionStepView::Primary {
                monitor: opt_text(*monitor),
            },
            ActionStep::Run { command, args } => ActionStepView::Run {
                command: command@,
                args: texts(args@),
            },
        }
    }
}

impl Clone for ActionStep {
    fn clone(&self) -> (r: Self)
        ensures
            r.deep_view() == self.deep_view(),
    {
        match self {
            ActionStep::Switch { destination } => ActionStep::Switch {
                destination: destination.clone(),
            },
            ActionStep::SetInput { monitor, code } => ActionStep::SetInput {
                monitor: monitor.clone(),
                code: *code,
            },
            ActionStep::ToggleInput { monitor, between } => ActionStep::ToggleInput {
                monitor: monitor.clone(),
                between: *between,
            },
            ActionStep::Sweep { monitor } => ActionStep::Sweep { monitor: copy_opt(monitor) },
            ActionStep::RestoreWindows { monitor } => ActionStep::RestoreWindows {
                monitor: copy_opt(monitor),
            },
            ActionStep::Release { monitor } => ActionStep::Release { monitor: copy_opt(monitor) },
            ActionStep::Claim { monitor } => ActionStep::Claim { monitor: copy_opt(monitor) },
            ActionStep::Primary { monitor } => ActionStep::Primary { monitor: copy_opt(monitor) },
            ActionStep::Run { command, args } => ActionStep::Run {
                command: command.clone(),
                args: copy_texts(args),
            },
        }
    }
}

/// The monitor a step names, or the words for none.
pub open spec fn target_name(monitor: Option<Seq<char>>) -> Seq<char> {
    match monitor {
        Some(m) => m,
        None => "the only monitor"@,
    }
}

fn target(monitor: &Option<String>) -> (r: String)
    ensures
        r@ == target_name(opt_text(*monitor)),
{
    match monitor {
        Some(m) => m.clone(),
        None => "the only monitor".to_owned(),
    }
}

impl ActionStepView {
    pub open spec fn is_experimental(self) -> bool {
        self is Release || self is Claim || self is Primary
    }

    /// What a step does, in words.
    pub open spec fn summary(self) -> Seq<char> {
        match self {
            ActionStepView::Switch { destination } => "switch to "@ + destination,
            ActionStepView::SetInput { monitor, code } => "set "@ + monitor + " to "@ + code_text(
                code,
            ),
            ActionStepView::ToggleInput { monitor, first, second } => "toggle "@ + monitor
                + " between "@ + code_text(first) + " and "@ + code_text(second),
            ActionStepView::Sweep { monitor } => "sweep windows off "@ + target_name(monitor),
            ActionStepView::RestoreWindows { monitor } => "put windows back on "@ + target_name(
                monitor,
            ),
            ActionStepView::Release { monitor } => "release "@ + target_name(monitor),
            ActionStepView::Claim { monitor } => "claim "@ + target_name(monitor),
            ActionStepView::Primary { monitor } => "make "@ + target_name(monitor) + " primary"@,
            ActionStepView::Run { command, args } => if args.len() == 0 {
                "run "@ + command
            } else {
                "run "@ + command + " "@ + joined(args, " "@)
            },
        }
    }

    /// The monitor a step is about, where it names one.
    pub open spec fn monitor_name(self) -> Option<Seq<char>> {
        match self {
            ActionStepView::Switch { destination } => None,
            ActionStepView::SetInput { monitor, code } => Some(monitor),
            ActionStepView::ToggleInput { monitor, first, second } => Some(monitor),
            ActionStepView::Sweep { monitor } => monitor,
            ActionStepView::RestoreWindows { monitor } => monitor,
            ActionStepView::Release { monitor } => monitor,
            ActionStepView::Claim { monitor } => monitor,
            ActionStepView::Primary { monitor } => monitor,
            ActionStepView::Run { command, args } => None,
        }
    }

    /// What is wrong with a step of the action `name`.
    pub open spec fn problem(self, name: Seq<char>) -> Option<Seq<char>> {
        match self {
            ActionStepView::Switch { destination } => if trimmed(destination).len() == 0 {
                Some("`"@ + name + "` has a switch step with no destination"@)
            } else {
                None
            },
            ActionStepView::Run { command, args } => if trimmed(command).len() == 0 {
                Some("`"@ + name + "` has a run step with no command"@)
            } else {
                None
            },
            _ => None,
        }
    }
}

impl ActionStep {
    /// Whether this step needs the `--experimental` opt-in.
    pub fn is_experimental(&self) -> (r: bool)
        ensures
            r == self.deep_view().is_experimental(),
    {
        match self {
            ActionStep::Release { .. } => true,
            ActionStep::Claim { .. } => true,
            ActionStep::Primary { .. } => true,
            _ => false,
        }
    }

    pub fn summary(&self) -> (r: String)
        ensures
            r@ == self.deep_view().summary(),
    {
        match self {
            ActionStep::Switch { destination } => cat2("switch to ", destination.as_str()),
            ActionStep::SetInput { monitor, code } => cat4(
                "set ",
                monitor.as_str(),
                " to ",
                code.to_string().as_str(),
            ),
            ActionStep::ToggleInput { monitor, between } => cat6(
                "toggle ",
                monitor.as_str(),
                " between ",
                between[0].to_string().as_str(),
                " and ",
                between[1].to_string().as_str(),
            ),
            ActionStep::Sweep { monitor } => cat2("sweep windows off ", target(monitor).as_str()),
            ActionStep::RestoreWindows { monitor } => cat2(
                "put windows back on ",
                target(monitor).as_str(),
            ),
            ActionStep::Release { monitor } => cat2("release ", target(monitor).as_str()),
            ActionStep::Claim { monitor } => cat2("claim ", target(monitor).as_str()),
            ActionStep::Primary { monitor } => cat3(
                "make ",
                target(monitor).as_str(),
                " primary",
            ),
            ActionStep::Run { command, args } => {
                if args.len() == 0 {
                    cat2("run ", command.as_str())
                } else {
                    let list = join(args.as_slice(), " ");
                    cat4("run ", command.as_str(), " ", list.as_str())
                }
            },
        }
    }

    pub fn to_string(&self) -> (r: String)
        ensures
            r@ == self.deep_view().summary(),
    {
        self.summary()
    }

    /// The monitor this step is about, where it names one.
    pub fn monitor_name(&self) -> (r: Option<&str>)
        ensures
            opt_str(r) == self.deep_view().monitor_name(),
    {
        match self {
            ActionStep::Switch { .. } => None,
            ActionStep::SetInput { monitor, code: _ } => Some(monitor.as_str()),
            ActionStep::ToggleInput { monitor, between: _ } => Some(monitor.as_str()),
            ActionStep::Sweep { monitor } => as_name(monitor),
            ActionStep::RestoreWindows { monitor } => as_name(monitor),
            ActionStep::Release { monitor } => as_name(monitor),
            ActionStep::Claim { monitor } => as_name(monitor),
            ActionStep::Primary { monitor } => as_name(monitor),
            ActionStep::Run { .. } => None,
        }
    }

    fn problem(&self, name: &str) -> (r: Option<String>)
        ensures
            opt_text(r) == self.deep_view().problem(name@),
    {
        match self {
            ActionStep::Switch { destination } => {
                if is_blank(destination.as_str()) {
                    Some(cat3("`", name, "` has a switch step with no destination"))
                } else {
                    None
                }
            },
            ActionStep::Run { command, args: _ } => {
                if is_blank(command.as_str()) {
                    Some(cat3("`", name, "` has a run step with no command"))
                } else {
                    None
                }
            },
            _ => None,
        }
    }
}

fn as_name(monitor: &Option<String>) -> (r: Option<&str>)
    ensures
        opt_str(r) == opt_text(*monitor),
{
    match monitor {
        Some(m) => Some(m.as_str()),
        None => None,
    }
}

/// A named sequence of steps, optionally bound to a hotkey.
#[derive(Debug, PartialEq, Eq)]
pub struct Action {
    pub name: String,
    /// Hotkey as a person writes it, e.g. `CTRL+ALT+2`. Absent means the
    /// action exists but is not bound.
    pub hotkey: Option<String>,
    pub steps: Vec<ActionStep>,
}

pub struct ActionView {
    pub name: Seq<char>,
    pub hotkey: Option<Seq<char>>,
    pub steps: Seq<ActionStepView>,
}

impl DeepView for Action {
    type V = ActionView;

    open spec fn deep_view(&self) -> ActionView {
        ActionView {
            name: self.name@,
            hotkey: opt_text(self.hotkey),
            steps: self.steps.deep_view(),
        }
    }
}

/// A copy of a list of steps.
pub fn copy_steps(v: &Vec<ActionStep>) -> (r: Vec<ActionStep>)
    ensures
        r.deep_view() == v.deep_view(),
{
    let r = v.clone();
    assert(r.deep_view() =~= v.deep_view());
    r
}

impl Clone for Action {
    fn clone(&self) -> (r: Self)
        ensures
            r.deep_view() == self.deep_view(),
    {
        Action {
            name: self.name.clone(),
            hotkey: copy_opt(&self.hotkey),
            steps: copy_steps(&self.steps),
        }
    }
}

// ---------------------------------------------------------------------------
// Slugs
// ---------------------------------------------------------------------------

/// The letters and digits of a name in lower case, with one dash for every run
/// of anything else, but none at the front.
pub open spec fn dashed(name: Seq<char>) -> Seq<char>
    decreases name.len(),
{
    if name.len() == 0 {
        Seq::empty()
    } else {
        let front = dashed(name.drop_last());
        if ascii_alphanumeric(name.last()) {
            front.push(ascii_lower(name.last()))
        } else if front.len() == 0 || front.last() == '-' {
            front
        } else {
            front.push('-')
        }
    }
}

/// The identifier-safe form of a name.
pub open spec fn slug_of(name: Seq<char>) -> Seq<char> {
    let s = stripped_end(dashed(name), '-');
    if s.len() == 0 {
        "action"@
    } else {
        s
    }
}

/// A character a slug may hold.
pub open spec fn slug_char(c: char) -> bool {
    'a' <= c <= 'z' || '0' <= c <= '9' || c == '-'
}

/// Made of lower-case letters, digits and single dashes between them.
pub open spec fn safe_slug(s: Seq<char>) -> bool {
    &&& s.len() > 0
    &&& s[0] != '-'
    &&& s.last() != '-'
    &&& forall|i: int| 0 <= i < s.len() ==> slug_char(#[trigger] s[i])
    &&& forall|i: int| 0 < i < s.len() && s[i] == '-' ==> #[trigger] s[i - 1] != '-'
}

proof fn lemma_dashed(name: Seq<char>)
    ensures
        ({
            let d = dashed(name);
            &&& d.len() > 0 ==> d[0] != '-'
            &&& forall|i: int| 0 <= i < d.len() ==> slug_char(#[trigger] d[i])
            &&& forall|i: int| 0 < i < d.len() && d[i] == '-' ==> #[trigger] d[i - 1] != '-'
        }),
    decreases name.len(),
{
    if name.len() > 0 {
        lemma_dashed(name.drop_last());
    }
}

proof fn lemma_stripped_once(s: Seq<char>)
    requires
        s.len() > 0 && s.last() == '-' ==> s.len() > 1 && s[s.len() - 2] != '-',
    ensures
        stripped_end(s, '-') == (if s.len() > 0 && s.last() == '-' {
            s.drop_last()
        } else {
            s
        }),
{
    reveal_with_fuel(stripped_end, 3);
}

/// A slug is never empty and is always safe in a file name or an identifier:
/// lower-case letters, digits, and single dashes between them.
pub proof fn law_slugs_are_safe(name: Seq<char>)
    ensures
        safe_slug(slug_of(name)),
{
    let d = dashed(name);
    lemma_dashed(name);
    reveal_strlit("action");
    if d.len() > 0 && d.last() == '-' {
        assert(d.len() > 1);
        assert(d[d.len() - 1] == '-');
        assert(d[(d.len() - 1) - 1] != '-');
    }
    lemma_stripped_once(d);
}

/// A slug is its own slug, so the short name of an action is stable.
pub proof fn law_slugs_are_stable(name: Seq<char>)
    ensures
        slug_of(slug_of(name)) == slug_of(name),
{
    law_slugs_are_safe(name);
    lemma_safe_slug_dashed(slug_of(name));
    lemma_stripped_once(slug_of(name));
}

proof fn lemma_safe_slug_dashed(s: Seq<char>)
    requires
        s.len() > 0 ==> s[0] != '-',
        forall|i: int| 0 <= i < s.len() ==> slug_char(#[trigger] s[i]),
        forall|i: int| 0 < i < s.len() && s[i] == '-' ==> #[trigger] s[i - 1] != '-',
    ensures
        dashed(s) == s,
    decreases s.len(),
{
    if s.len() > 0 {
        let front = s.drop_last();
        assert forall|i: int| 0 < i < front.len() && front[i] == '-' implies #[trigger] front[i - 1]
            != '-' by {
            assert(s[i] == '-');
            assert(s[i - 1] != '-');
        }
        lemma_safe_slug_dashed(front);
        assert(slug_char(s[s.len() - 1]));
        if s.last() == '-' {
            assert(s[s.len() - 1] == '-');
            assert(s[(s.len() - 1) - 1] != '-');
        }
        assert(s =~= front.push(s.last()));
    }
}

// ---------------------------------------------------------------------------
// Hotkeys
// ---------------------------------------------------------------------------

/// The keys of a hotkey: the parts between plus signs, trimmed and in upper
/// case, without the empty ones.
pub open spec fn hotkey_keys(hotkey: Seq<char>) -> Seq<Seq<char>> {
    kept_keys(split_on(hotkey, '+'))
}

pub open spec fn kept_keys(parts: Seq<Seq<char>>) -> Seq<Seq<char>>
    decreases parts.len(),
{
    if parts.len() == 0 {
        Seq::empty()
    } else {
        let key = upper_all(trimmed(parts.last()));
        if key.len() == 0 {
            kept_keys(parts.drop_last())
        } else {
            kept_keys(parts.drop_last()).push(key)
        }
    }
}

/// A hotkey in its normal form: its keys in order.
pub open spec fn normal_hotkey(hotkey: Seq<char>) -> Seq<char> {
    joined(sorted_texts(hotkey_keys(hotkey)), "+"@)
}

/// Compare hotkeys ignoring case and modifier order, so `Ctrl+Alt+1` and
/// `ALT+CTRL+1` are recognised as the same binding rather than silently
/// fighting each other.
pub fn normalise_hotkey(hotkey: &str) -> (r: String)
    ensures
        r@ == normal_hotkey(hotkey@),
{
    let cs = chars_of(hotkey);
    let parts = split_char(cs.as_slice(), '+');
    let ghost all = split_on(hotkey@, '+');
    let mut keys: Vec<String> = Vec::new();
    let mut i: usize = 0;
    assert(all.take(0) =~= Seq::<Seq<char>>::empty());
    assert(texts(keys@) =~= kept_keys(all.take(0)));
    while i < parts.len()
        invariant
            i <= parts.len(),
            pieces(parts@) == all,
            texts(keys@) == kept_keys(all.take(i as int)),
        decreases parts.len() - i,
    {
        let key = uppered(trim(parts[i]));
        assert(all.take(i as int + 1).drop_last() =~= all.take(i as int));
        assert(all.take(i as int + 1).last() == parts@[i as int]@);
        if key.len() > 0 {
            let ghost before = keys@;
            keys.push(string_of(key.as_slice()));
            assert(texts(keys@) =~= texts(before).push(key@));
        }
        i += 1;
    }
    assert(all.take(all.len() as int) =~= all);
    let sorted = sort_texts(&keys);
    join(sorted.as_slice(), "+")
}

/// The order in which the keys of a hotkey are written does not matter.
pub proof fn law_hotkey_order_does_not_matter(a: Seq<char>, b: Seq<char>)
    requires
        hotkey_keys(a).to_multiset() == hotkey_keys(b).to_multiset(),
    ensures
        normal_hotkey(a) == normal_hotkey(b),
{
    lemma_sorted_texts_permute(hotkey_keys(a), hotkey_keys(b));
}

proof fn lemma_upper_white(c: char)
    ensures
        white_space(ascii_upper(c)) == white_space(c),
        (ascii_upper(c) == '+') == (c == '+'),
        ascii_upper(ascii_upper(c)) == ascii_upper(c),
{
}

proof fn lemma_trimmed_start_upper(s: Seq<char>)
    ensures
        trimmed_start(upper_all(s)) == upper_all(trimmed_start(s)),
    decreases s.len(),
{
    if s.len() > 0 {
        lemma_upper_white(s[0]);
        if white_space(s[0]) {
            assert(upper_all(s).skip(1) =~= upper_all(s.skip(1)));
            lemma_trimmed_start_upper(s.skip(1));
        }
    }
}

proof fn lemma_trimmed_end_upper(s: Seq<char>)
    ensures
        trimmed_end(upper_all(s)) == upper_all(trimmed_end(s)),
    decreases s.len(),
{
    if s.len() > 0 {
        lemma_upper_white(s.last());
        assert(upper_all(s).last() == ascii_upper(s.last()));
        if white_space(s.last()) {
            assert(upper_all(s).drop_last() =~= upper_all(s.drop_last()));
            lemma_trimmed_end_upper(s.drop_last());
        }
    }
}

proof fn lemma_upper_twice(s: Seq<char>)
    ensures
        upper_all(upper_all(s)) == upper_all(s),
{
    assert forall|i: int| 0 <= i < s.len() implies upper_all(upper_all(s))[i] == upper_all(
        s,
    )[i] by {
        lemma_upper_white(s[i]);
    }
    assert(upper_all(upper_all(s)) =~= upper_all(s));
}

pub open spec fn upper_parts(parts: Seq<Seq<char>>) -> Seq<Seq<char>> {
    parts.map_values(|p: Seq<char>| upper_all(p))
}

proof fn lemma_split_upper(s: Seq<char>)
    ensures
        split_on(upper_all(s), '+') == upper_parts(split_on(s, '+')),
    decreases s.len(),
{
    if s.len() == 0 {
        assert(upper_all(s) =~= Seq::<char>::empty());
        assert(upper_parts(split_on(s, '+')) =~= seq![Seq::<char>::empty()]) by {
            assert(upper_all(Seq::<char>::empty()) =~= Seq::<char>::empty());
        }
    } else {
        let f = s.drop_last();
        let front = split_on(f, '+');
        lemma_split_upper(f);
        crate::text::lemma_split_on_nonempty(f, '+');
        assert(upper_all(s).drop_last() =~= upper_all(f));
        assert(upper_all(s).last() == ascii_upper(s.last()));
        lemma_upper_white(s.last());
        if s.last() == '+' {
            assert(upper_all(Seq::<char>::empty()) =~= Seq::<char>::empty());
            assert(upper_parts(front.push(Seq::empty())) =~= upper_parts(front).push(
                Seq::empty(),
            ));
        } else {
            let last = front.last().push(s.last());
            assert(upper_all(last) =~= upper_all(front.last()).push(ascii_upper(s.last())));
            assert(upper_parts(front.drop_last().push(last)) =~= upper_parts(
                front,
            ).drop_last().push(upper_all(last)));
        }
    }
}

proof fn lemma_kept_upper(parts: Seq<Seq<char>>)
    ensures
        kept_keys(upper_parts(parts)) == kept_keys(parts),
    decreases parts.len(),
{
    if parts.len() > 0 {
        let up = upper_parts(parts);
        assert(up.drop_last() =~= upper_parts(parts.drop_last()));
        assert(up.last() == upper_all(parts.last()));
        lemma_kept_upper(parts.drop_last());
        let p = parts.last();
        lemma_trimmed_start_upper(p);
        lemma_trimmed_end_upper(trimmed_start(p));
        lemma_upper_twice(trimmed(p));
    }
}

/// The case in which a hotkey is written does not matter.
pub proof fn law_hotkey_case_does_not_matter(a: Seq<char>, b: Seq<char>)
    requires
        same_ignoring_case(a, b),
    ensures
        normal_hotkey(a) == normal_hotkey(b),
{
    assert(upper_all(a) =~= upper_all(b)) by {
        assert(a.len() == crate::text::lower_all(a).len());
        assert(b.len() == crate::text::lower_all(b).len());
        assert forall|i: int| 0 <= i < a.len() implies ascii_upper(a[i]) == ascii_upper(
            b[i],
        ) by {
            assert(crate::text::lower_all(a)[i] == ascii_lower(a[i]));
            assert(crate::text::lower_all(b)[i] == ascii_lower(b[i]));
        }
    }
    lemma_split_upper(a);
    lemma_split_upper(b);
    lemma_kept_upper(split_on(a, '+'));
    lemma_kept_upper(split_on(b, '+'));
}

/// A key as it stands in the normal form of a hotkey: trimmed, in upper case,
/// not empty and without a plus sign.
pub open spec fn is_key(key: Seq<char>) -> bool {
    &&& key.len() > 0
    &&& trimmed(key) == key
    &&& upper_all(key) == key
    &&& !key.contains('+')
}

proof fn lemma_trimmed_twice(s: Seq<char>)
    ensures
        trimmed(trimmed(s)) == trimmed(s),
        forall|i: int|
            0 <= i < trimmed(s).len() ==> s.contains(#[trigger] trimmed(s)[i]),
{
    lemma_trimmed_start_holds(s);
    lemma_trimmed_end_holds(trimmed_start(s));
    let t = trimmed(s);
    if t.len() > 0 {
        assert(t[0] == trimmed_start(s)[0]);
    }
    assert forall|i: int| 0 <= i < t.len() implies s.contains(#[trigger] t[i]) by {
        assert(t[i] == trimmed_start(s)[i]);
        assert(s.contains(trimmed_start(s)[i]));
    }
}

proof fn lemma_trimmed_start_holds(s: Seq<char>)
    ensures
        trimmed_start(s).len() > 0 ==> !white_space(trimmed_start(s)[0]),
        forall|i: int|
            0 <= i < trimmed_start(s).len() ==> s.contains(#[trigger] trimmed_start(s)[i]),
    decreases s.len(),
{
    let t = trimmed_start(s);
    if s.len() > 0 && white_space(s[0]) {
        lemma_trimmed_start_holds(s.skip(1));
        assert forall|i: int| 0 <= i < t.len() implies s.contains(#[trigger] t[i]) by {
            let j = choose|j: int| 0 <= j < s.skip(1).len() && s.skip(1)[j] == t[i];
            assert(s[j + 1] == t[i]);
        }
    }
}

proof fn lemma_trimmed_end_holds(s: Seq<char>)
    ensures
        trimmed_end(s).len() <= s.len(),
        trimmed_end(s).len() > 0 ==> !white_space(trimmed_end(s).last()),
        forall|i: int| 0 <= i < trimmed_end(s).len() ==> #[trigger] trimmed_end(s)[i] == s[i],
    decreases s.len(),
{
    if s.len() > 0 && white_space(s.last()) {
        lemma_trimmed_end_holds(s.drop_last());
    }
}

/// No part between separators holds one.
proof fn lemma_split_parts(s: Seq<char>, sep: char)
    ensures
        forall|i: int|
            0 <= i < split_on(s, sep).len() ==> !(#[trigger] split_on(s, sep)[i]).contains(sep),
    decreases s.len(),
{
    if s.len() > 0 {
        lemma_split_parts(s.drop_last(), sep);
        crate::text::lemma_split_on_nonempty(s.drop_last(), sep);
        let front = split_on(s.drop_last(), sep);
        let all = split_on(s, sep);
        assert forall|i: int| 0 <= i < all.len() implies !(#[trigger] all[i]).contains(sep) by {
            if s.last() != sep && i == all.len() - 1 {
                let last = front.last();
                assert(!front[front.len() - 1].contains(sep));
                assert forall|j: int| 0 <= j < all[i].len() implies all[i][j] != sep by {
                    if j < last.len() {
                        assert(last.contains(last[j]));
                    }
                }
            } else if i < front.len() {
                assert(all[i] == front[i]);
            }
        }
    }
}

proof fn lemma_kept_are_keys(parts: Seq<Seq<char>>)
    requires
        forall|i: int| 0 <= i < parts.len() ==> !(#[trigger] parts[i]).contains('+'),
    ensures
        forall|i: int| 0 <= i < kept_keys(parts).len() ==> is_key(#[trigger] kept_keys(parts)[i]),
    decreases parts.len(),
{
    if parts.len() > 0 {
        let front = parts.drop_last();
        let p = parts.last();
        let key = upper_all(trimmed(p));
        assert forall|i: int| 0 <= i < front.len() implies !(#[trigger] front[i]).contains('+') by {
            assert(parts[i] == front[i]);
        }
        lemma_kept_are_keys(front);
        lemma_trimmed_twice(p);
        lemma_trimmed_start_upper(trimmed(p));
        lemma_trimmed_end_upper(trimmed_start(trimmed(p)));
        lemma_upper_twice(trimmed(p));
        assert(!parts[parts.len() - 1].contains('+'));
        assert forall|j: int| 0 <= j < key.len() implies key[j] != '+' by {
            lemma_upper_white(trimmed(p)[j]);
            assert(p.contains(trimmed(p)[j]));
        }
        assert(upper_all(trimmed_start(trimmed(p))) == trimmed_start(key));
        assert(trimmed(key) == upper_all(trimmed(trimmed(p))));
        assert(key.len() > 0 ==> is_key(key));
        let kept = kept_keys(parts);
        assert forall|i: int| 0 <= i < kept.len() implies is_key(#[trigger] kept[i]) by {
            if i < kept_keys(front).len() {
                assert(kept[i] == kept_keys(front)[i]);
            }
        }
    }
}

/// Keys that are written as such are all kept.
proof fn lemma_keys_are_kept(keys: Seq<Seq<char>>)
    requires
        forall|i: int| 0 <= i < keys.len() ==> is_key(#[trigger] keys[i]),
    ensures
        kept_keys(keys) == keys,
    decreases keys.len(),
{
    if keys.len() > 0 {
        let front = keys.drop_last();
        assert forall|i: int| 0 <= i < front.len() implies is_key(#[trigger] front[i]) by {
            assert(keys[i] == front[i]);
        }
        lemma_keys_are_kept(front);
        assert(is_key(keys[keys.len() - 1]));
        assert(front.push(keys.last()) =~= keys);
    }
}

/// What stands behind the last separator is added to what stands there.
proof fn lemma_split_append(s: Seq<char>, t: Seq<char>, sep: char)
    requires
        !t.contains(sep),
    ensures
        split_on(s + t, sep) == split_on(s, sep).drop_last().push(split_on(s, sep).last() + t),
    decreases t.len(),
{
    crate::text::lemma_split_on_nonempty(s, sep);
    let front = split_on(s, sep);
    if t.len() == 0 {
        assert(s + t =~= s);
        assert(front.last() + t =~= front.last());
        assert(front.drop_last().push(front.last()) =~= front);
    } else {
        let u = t.drop_last();
        assert forall|i: int| 0 <= i < u.len() implies u[i] != sep by {
            assert(t.contains(t[i]));
        }
        lemma_split_append(s, u, sep);
        assert((s + t).drop_last() =~= s + u);
        assert(t.contains(t[t.len() - 1]));
        assert((s + t).last() == t.last());
        let mid = split_on(s + u, sep);
        assert(mid.drop_last() =~= front.drop_last());
        assert((front.last() + u).push(t.last()) =~= front.last() + t);
    }
}

/// Parts that hold no separator are found again between the separators.
proof fn lemma_split_joined(parts: Seq<Seq<char>>)
    requires
        parts.len() > 0,
        forall|i: int| 0 <= i < parts.len() ==> !(#[trigger] parts[i]).contains('+'),
    ensures
        split_on(joined(parts, "+"@), '+') == parts,
    decreases parts.len(),
{
    reveal_strlit("+");
    let last = parts.last();
    assert(!parts[parts.len() - 1].contains('+'));
    if parts.len() == 1 {
        lemma_split_append(Seq::empty(), last, '+');
        assert(Seq::<char>::empty() + last =~= last);
        assert(split_on(last, '+') =~= parts);
    } else {
        let front = parts.drop_last();
        assert forall|i: int| 0 <= i < front.len() implies !(#[trigger] front[i]).contains('+') by {
            assert(parts[i] == front[i]);
        }
        lemma_split_joined(front);
        let head = joined(front, "+"@) + "+"@;
        assert(head.drop_last() =~= joined(front, "+"@));
        assert(split_on(head, '+') =~= front.push(Seq::empty()));
        lemma_split_append(head, last, '+');
        assert(front.push(Seq::<char>::empty()).drop_last() =~= front);
        assert(Seq::<char>::empty() + last =~= last);
        assert(front.push(last) =~= parts);
    }
}

/// The normal form of a hotkey holds exactly its keys, in order, each trimmed,
/// in upper case and not empty.
pub proof fn law_a_normal_hotkey_holds_its_keys(hotkey: Seq<char>)
    ensures
        hotkey_keys(normal_hotkey(hotkey)) == sorted_texts(hotkey_keys(hotkey)),
        hotkey_keys(normal_hotkey(hotkey)).to_multiset() == hotkey_keys(hotkey).to_multiset(),
        forall|i: int|
            0 <= i < hotkey_keys(normal_hotkey(hotkey)).len() ==> is_key(
                #[trigger] hotkey_keys(normal_hotkey(hotkey))[i],
            ),
{
    let keys = hotkey_keys(hotkey);
    let sorted = sorted_texts(keys);
    lemma_split_parts(hotkey, '+');
    lemma_kept_are_keys(split_on(hotkey, '+'));
    crate::seqs::lemma_text_order_is_total();
    keys.lemma_sort_by_ensures(crate::seqs::text_order());
    keys.to_multiset_ensures();
    sorted.to_multiset_ensures();
    assert forall|i: int| 0 <= i < sorted.len() implies is_key(#[trigger] sorted[i]) by {
        assert(sorted.contains(sorted[i]));
        assert(keys.to_multiset().count(sorted[i]) > 0);
        assert(keys.contains(sorted[i]));
    }
    if sorted.len() == 0 {
        assert(normal_hotkey(hotkey) =~= Seq::<char>::empty());
        let none = split_on(Seq::<char>::empty(), '+');
        assert(none.last() =~= Seq::<char>::empty());
        assert(trimmed(Seq::<char>::empty()) =~= Seq::<char>::empty());
        assert(upper_all(Seq::<char>::empty()) =~= Seq::<char>::empty());
        assert(none.drop_last() =~= Seq::<Seq<char>>::empty());
        assert(kept_keys(none.drop_last()) =~= Seq::<Seq<char>>::empty());
        assert(kept_keys(none) =~= sorted);
    } else {
        assert forall|i: int| 0 <= i < sorted.len() implies !(#[trigger] sorted[i]).contains(
            '+',
        ) by {
            assert(is_key(sorted[i]));
        }
        lemma_split_joined(sorted);
        lemma_keys_are_kept(sorted);
    }
}

/// Normalising a hotkey twice is normalising it once.
pub proof fn law_a_normal_hotkey_is_its_own_normal_form(hotkey: Seq<char>)
    ensures
        normal_hotkey(normal_hotkey(hotkey)) == normal_hotkey(hotkey),
{
    law_a_normal_hotkey_holds_its_keys(hotkey);
    law_hotkey_order_does_not_matter(normal_hotkey(hotkey), hotkey);
}

/// Two hotkeys are the same exactly when they hold the same keys, however they
/// are ordered and whatever blank parts stand between them.
pub proof fn law_hotkeys_are_told_apart_by_their_keys(a: Seq<char>, b: Seq<char>)
    ensures
        normal_hotkey(a) == normal_hotkey(b) <==> hotkey_keys(a).to_multiset() == hotkey_keys(
            b,
        ).to_multiset(),
{
    if hotkey_keys(a).to_multiset() == hotkey_keys(b).to_multiset() {
        law_hotkey_order_does_not_matter(a, b);
    }
    law_a_normal_hotkey_holds_its_keys(a);
    law_a_normal_hotkey_holds_its_keys(b);
}

// ---------------------------------------------------------------------------
// Validation
// ---------------------------------------------------------------------------

impl ActionView {
    pub open spec fn new(name: Seq<char>) -> ActionView {
        ActionView { name, hotkey: None, steps: Seq::empty() }
    }

    pub open spec fn needs_experimental(self) -> bool {
        exists|i: int| 0 <= i < self.steps.len() && #[trigger] self.steps[i].is_experimental()
    }

    /// What is wrong with an action on its own.
    pub open spec fn problem(self) -> Option<Seq<char>> {
        if trimmed(self.name).len() == 0 {
            Some("an action needs a name"@)
        } else if self.steps.len() == 0 {
            Some("`"@ + self.name + "` has no steps, so it would do nothing"@)
        } else {
            first_some(self.steps, |s: ActionStepView| s.problem(self.name))
        }
    }
}

/// What is wrong with two actions of one configuration, the first before the
/// second.
pub open spec fn pair_problem(a: ActionView, b: ActionView) -> Option<Seq<char>> {
    if same_ignoring_case(a.name, b.name) {
        Some("two actions are both called `"@ + a.name + "`"@)
    } else if slug_of(a.name) == slug_of(b.name) {
        Some(
            "`"@ + a.name + "` and `"@ + b.name + "` reduce to the same short name `"@ + slug_of(
                a.name,
            ) + "`, which shortcut files cannot tell apart"@,
        )
    } else if a.hotkey is Some && b.hotkey is Some && normal_hotkey(a.hotkey->0) == normal_hotkey(
        b.hotkey->0,
    ) {
        Some("`"@ + a.name + "` and `"@ + b.name + "` are both bound to "@ + a.hotkey->0)
    } else {
        None
    }
}

/// What is wrong between an action and those after it.
pub open spec fn later_problem(actions: Seq<ActionView>, i: int) -> Option<Seq<char>> {
    first_some(actions.skip(i + 1), |b: ActionView| pair_problem(actions[i], b))
}

/// The places of a sequence.
pub open spec fn places(n: nat) -> Seq<int> {
    Seq::new(n, |i: int| i)
}

/// The first thing that is wrong with a set of actions: each on its own first,
/// then each together with those after it.
pub open spec fn actions_problem(actions: Seq<ActionView>) -> Option<Seq<char>> {
    match first_some(actions, |a: ActionView| a.problem()) {
        Some(p) => Some(p),
        None => first_some(places(actions.len()), |i: int| later_problem(actions, i)),
    }
}

/// The error text of a result.
pub open spec fn err_text(r: Result<(), String>) -> Option<Seq<char>> {
    match r {
        Ok(_) => None,
        Err(s) => Some(s@),
    }
}

impl Action {
    pub fn new(name: &str) -> (r: Self)
        ensures
            r.deep_view() == ActionView::new(name@),
    {
        let r = Action { name: name.to_owned(), hotkey: None, steps: Vec::new() };
        assert(r.deep_view().steps =~= Seq::<ActionStepView>::empty());
        r
    }

    /// A filesystem- and identifier-safe form of the name.
    ///
    /// Used for shortcut filenames and keybinding slots, so it is stable and
    /// never empty.
    pub fn slug(&self) -> (r: String)
        ensures
            r@ == slug_of(self.name@),
            safe_slug(r@),
    {
        let name = chars_of(self.name.as_str());
        let mut out: Vec<char> = Vec::new();
        let mut i: usize = 0;
        assert(name@.take(0) =~= Seq::<char>::empty());
        while i < name.len()
            invariant
                i <= name.len(),
                name@ == self.name@,
                out@ == dashed(name@.take(i as int)),
            decreases name.len() - i,
        {
            assert(name@.take(i as int + 1).drop_last() =~= name@.take(i as int));
            assert(name@.take(i as int + 1).last() == name@[i as int]);
            let c: char = name[i];
            let n: usize = out.len();
            if is_ascii_alphanumeric(c) {
                out.push(to_ascii_lower(c));
            } else if n > 0 && out[n - 1] != '-' {
                out.push('-');
            }
            i += 1;
        }
        assert(name@.take(name@.len() as int) =~= name@);
        proof {
            law_slugs_are_safe(self.name@);
        }
        let kept = strip_end(out.as_slice(), '-');
        if kept.len() == 0 {
            "action".to_owned()
        } else {
            string_of(kept)
        }
    }

    pub fn needs_experimental(&self) -> (r: bool)
        ensures
            r == self.deep_view().needs_experimental(),
    {
        let mut i: usize = 0;
        while i < self.steps.len()
            invariant
                i <= self.steps.len(),
                forall|j: int|
                    0 <= j < i ==> !(#[trigger] self.deep_view().steps[j].is_experimental()),
            decreases self.steps.len() - i,
        {
            if self.steps[i].is_experimental() {
                assert(self.deep_view().steps[i as int].is_experimental());
                return true;
            }
            i += 1;
        }
        false
    }

    pub fn validate(&self) -> (r: Result<(), String>)
        ensures
            err_text(r) == self.deep_view().problem(),
    {
        if is_blank(self.name.as_str()) {
            return Err("an action needs a name".to_owned());
        }
        if self.steps.len() == 0 {
            return Err(cat3("`", self.name.as_str(), "` has no steps, so it would do nothing"));
        }
        let ghost steps = self.deep_view().steps;
        let ghost f = |s: ActionStepView| s.problem(self.name@);
        let mut i: usize = 0;
        while i < self.steps.len()
            invariant
                i <= self.steps.len(),
                steps == self.deep_view().steps,
                f == (|s: ActionStepView| s.problem(self.name@)),
                trimmed(self.name@).len() > 0,
                self.steps.len() > 0,
                forall|j: int| 0 <= j < i ==> f(#[trigger] steps[j]) is None,
            decreases self.steps.len() - i,
        {
            if let Some(p) = self.steps[i].problem(self.name.as_str()) {
                proof {
                    lemma_first_some_here(steps, f, i as int);
                }
                return Err(p);
            }
            i += 1;
        }
        proof {
            lemma_first_some_none(steps, f);
        }
        Ok(())
    }
}

fn check_pair(a: &Action, b: &Action) -> (r: Option<String>)
    ensures
        opt_text(r) == pair_problem(a.deep_view(), b.deep_view()),
{
    let an: &str = a.name.as_str();
    let bn: &str = b.name.as_str();
    if eq_ignore_case(an, bn) {
        return Some(cat3("two actions are both called `", an, "`"));
    }
    let slug = a.slug();
    if same(slug.as_str(), b.slug().as_str()) {
        return Some(
            cat7(
                "`",
                an,
                "` and `",
                bn,
                "` reduce to the same short name `",
                slug.as_str(),
                "`, which shortcut files cannot tell apart",
            ),
        );
    }
    if let (Some(x), Some(y)) = (&a.hotkey, &b.hotkey) {
        if same(normalise_hotkey(x.as_str()).as_str(), normalise_hotkey(y.as_str()).as_str()) {
            return Some(cat6("`", an, "` and `", bn, "` are both bound to ", x.as_str()));
        }
    }
    None
}

fn check_later(actions: &[Action], i: usize) -> (r: Option<String>)
    requires
        i < actions.len(),
    ensures
        opt_text(r) == later_problem(actions.deep_view(), i as int),
{
    let ghost all = actions.deep_view();
    let ghost rest = all.skip(i as int + 1);
    let ghost f = |b: ActionView| pair_problem(all[i as int], b);
    let mut j: usize = i + 1;
    while j < actions.len()
        invariant
            i < j <= actions.len(),
            all == actions.deep_view(),
            rest == all.skip(i as int + 1),
            f == (|b: ActionView| pair_problem(all[i as int], b)),
            forall|k: int| 0 <= k < j - i - 1 ==> f(#[trigger] rest[k]) is None,
        decreases actions.len() - j,
    {
        assert(rest[j - i - 1] == actions@[j as int].deep_view());
        if let Some(p) = check_pair(&actions[i], &actions[j]) {
            proof {
                lemma_first_some_here(rest, f, j - i - 1);
            }
            return Some(p);
        }
        j += 1;
    }
    proof {
        lemma_first_some_none(rest, f);
    }
    None
}

/// Check a whole set of actions for problems that only show up together.
pub fn validate_all(actions: &[Action]) -> (r: Result<(), String>)
    ensures
        err_text(r) == actions_problem(actions.deep_view()),
{
    let ghost all = actions.deep_view();
    let ghost f = |a: ActionView| a.problem();
    let mut i: usize = 0;
    while i < actions.len()
        invariant
            i <= actions.len(),
            all == actions.deep_view(),
            f == (|a: ActionView| a.problem()),
            forall|j: int| 0 <= j < i ==> f(#[trigger] all[j]) is None,
        decreases actions.len() - i,
    {
        if let Err(p) = actions[i].validate() {
            assert(f(all[i as int]) is Some);
            proof {
                lemma_first_some_here(all, f, i as int);
            }
            return Err(p);
        }
        assert(f(all[i as int]) is None);
        i += 1;
    }
    proof {
        lemma_first_some_none(all, f);
    }
    let ghost g = |k: int| later_problem(all, k);
    let ghost at = places(all.len());
    let mut k: usize = 0;
    while k < actions.len()
        invariant
            k <= actions.len(),
            all == actions.deep_view(),
            f == (|a: ActionView| a.problem()),
            g == (|k: int| later_problem(all, k)),
            at == places(all.len()),
            first_some(all, f) is None,
            forall|j: int| 0 <= j < k ==> g(#[trigger] at[j]) is None,
        decreases actions.len() - k,
    {
        assert(at[k as int] == k);
        if let Some(p) = check_later(actions, k) {
            proof {
                lemma_first_some_here(at, g, k as int);
            }
            return Err(p);
        }
        k += 1;
    }
    proof {
        lemma_first_some_none(at, g);
    }
    Ok(())
}

/// In a set of actions that passes, every action is complete on its own, and no
/// two share a name (whatever its case), a short name or a hotkey (whatever
/// its case and the order of its keys).
pub proof fn law_valid_actions_are_distinct(actions: Seq<ActionView>)
    requires
        actions_problem(actions) is None,
    ensures
        forall|i: int| 0 <= i < actions.len() ==> (#[trigger] actions[i]).problem() is None,
        forall|i: int, j: int|
            0 <= i < j < actions.len() ==> {
                &&& !same_ignoring_case(#[trigger] actions[i].name, #[trigger] actions[j].name)
                &&& slug_of(actions[i].name) != slug_of(actions[j].name)
                &&& actions[i].hotkey is Some && actions[j].hotkey is Some ==> normal_hotkey(
                    actions[i].hotkey->0,
                ) != normal_hotkey(actions[j].hotkey->0)
            },
{
    let f = |a: ActionView| a.problem();
    lemma_first_some_is_none(actions, f);
    assert forall|i: int| 0 <= i < actions.len() implies (#[trigger] actions[i]).problem()
        is None by {
        assert(f(actions[i]) is None);
    }
    let at = places(actions.len());
    let g = |i: int| later_problem(actions, i);
    lemma_first_some_is_none(at, g);
    assert forall|i: int, j: int| 0 <= i < j < actions.len() implies {
        &&& !same_ignoring_case(#[trigger] actions[i].name, #[trigger] actions[j].name)
        &&& slug_of(actions[i].name) != slug_of(actions[j].name)
        &&& actions[i].hotkey is Some && actions[j].hotkey is Some ==> normal_hotkey(
            actions[i].hotkey->0,
        ) != normal_hotkey(actions[j].hotkey->0)
    } by {
        assert(g(at[i]) is None);
        let h = |b: ActionView| pair_problem(actions[i], b);
        let rest = actions.skip(i + 1);
        lemma_first_some_is_none(rest, h);
        assert(rest[j - i - 1] == actions[j]);
        assert(h(rest[j - i - 1]) is None);
    }
}

// ---------------------------------------------------------------------------
// What actions promise
// ---------------------------------------------------------------------------

/// There is something in a text besides white space.
pub open spec fn says_something(s: Seq<char>) -> bool {
    exists|i: int| 0 <= i < s.len() && !white_space(#[trigger] s[i])
}

proof fn lemma_says_something(s: Seq<char>)
    ensures
        says_something(s) <==> trimmed(s).len() > 0,
{
    law_a_blank_text_is_all_white_space(s);
}

/// A step says where it goes or what it runs.
pub open spec fn step_is_whole(step: ActionStepView) -> bool {
    match step {
        ActionStepView::Switch { destination } => says_something(destination),
        ActionStepView::Run { command, args } => says_something(command),
        _ => true,
    }
}

/// An action may be saved exactly where it has a name, has a step, and every
/// step says where it goes or what it runs.
pub proof fn law_an_action_is_valid_when_it_is_whole(action: ActionView)
    ensures
        action.problem() is None <==> {
            &&& says_something(action.name)
            &&& action.steps.len() > 0
            &&& forall|i: int| 0 <= i < action.steps.len() ==> step_is_whole(
                #[trigger] action.steps[i],
            )
        },
{
    let f = |s: ActionStepView| s.problem(action.name);
    lemma_says_something(action.name);
    assert forall|i: int| 0 <= i < action.steps.len() implies (f(#[trigger] action.steps[i])
        is None <==> step_is_whole(action.steps[i])) by {
        match action.steps[i] {
            ActionStepView::Switch { destination } => {
                lemma_says_something(destination);
            },
            ActionStepView::Run { command, args } => {
                lemma_says_something(command);
            },
            _ => {},
        }
    }
    if first_some(action.steps, f) is None {
        lemma_first_some_is_none(action.steps, f);
    }
    if forall|i: int| 0 <= i < action.steps.len() ==> step_is_whole(#[trigger] action.steps[i]) {
        assert forall|i: int| 0 <= i < action.steps.len() implies f(#[trigger] action.steps[i])
            is None by {
            assert(step_is_whole(action.steps[i]));
        }
        lemma_first_some_none(action.steps, f);
    }
}

/// Two actions can be told apart: by their names, whatever the case, by their
/// short names, and by their hotkeys.
pub open spec fn apart(a: ActionView, b: ActionView) -> bool {
    &&& !spelled_alike(a.name, b.name)
    &&& slug_of(a.name) != slug_of(b.name)
    &&& !(a.hotkey is Some && b.hotkey is Some && hotkey_keys(a.hotkey->0).to_multiset()
        == hotkey_keys(b.hotkey->0).to_multiset())
}

/// Actions may be saved together exactly where each may be saved and any two of
/// them can be told apart.
pub proof fn law_actions_are_valid_when_they_are_apart(actions: Seq<ActionView>)
    ensures
        actions_problem(actions) is None <==> {
            &&& forall|i: int| 0 <= i < actions.len() ==> (#[trigger] actions[i]).problem() is None
            &&& forall|i: int, j: int|
                0 <= i < j < actions.len() ==> apart(#[trigger] actions[i], #[trigger] actions[j])
        },
{
    assert forall|a: ActionView, b: ActionView|
        pair_problem(a, b) is None <==> #[trigger] apart(a, b) by {
        law_nothing_but_case_is_ignored(a.name, b.name);
        if a.hotkey is Some && b.hotkey is Some {
            law_hotkeys_are_told_apart_by_their_keys(a.hotkey->0, b.hotkey->0);
        }
    }
    if actions_problem(actions) is None {
        law_valid_actions_are_distinct(actions);
        let at = places(actions.len());
        let g = |i: int| later_problem(actions, i);
        lemma_first_some_is_none(at, g);
        assert forall|i: int, j: int| 0 <= i < j < actions.len() implies apart(
            #[trigger] actions[i],
            #[trigger] actions[j],
        ) by {
            assert(g(at[i]) is None);
            let h = |b: ActionView| pair_problem(actions[i], b);
            let rest = actions.skip(i + 1);
            lemma_first_some_is_none(rest, h);
            assert(rest[j - i - 1] == actions[j]);
            assert(h(rest[j - i - 1]) is None);
        }
    }
    if (forall|i: int| 0 <= i < actions.len() ==> (#[trigger] actions[i]).problem() is None) && (
    forall|i: int, j: int|
        0 <= i < j < actions.len() ==> apart(#[trigger] actions[i], #[trigger] actions[j])) {
        let f = |a: ActionView| a.problem();
        lemma_first_some_none(actions, f);
        let at = places(actions.len());
        let g = |i: int| later_problem(actions, i);
        assert forall|i: int| 0 <= i < at.len() implies g(#[trigger] at[i]) is None by {
            let h = |b: ActionView| pair_problem(actions[i], b);
            let rest = actions.skip(i + 1);
            assert forall|k: int| 0 <= k < rest.len() implies h(#[trigger] rest[k]) is None by {
                assert(rest[k] == actions[i + 1 + k]);
                assert(apart(actions[i], actions[i + 1 + k]));
            }
            lemma_first_some_none(rest, h);
        }
        lemma_first_some_none(at, g);
    }
}

/// A hotkey that is written as its keys with plus signs between them has those
/// keys, all of them and in that order.
pub proof fn law_a_hotkey_has_the_keys_it_is_written_with(keys: Seq<Seq<char>>)
    requires
        keys.len() > 0,
        forall|i: int| 0 <= i < keys.len() ==> is_key(#[trigger] keys[i]),
    ensures
        hotkey_keys(joined(keys, "+"@)) == keys,
{
    assert forall|i: int| 0 <= i < keys.len() implies !(#[trigger] keys[i]).contains('+') by {
        assert(is_key(keys[i]));
    }
    lemma_split_joined(keys);
    lemma_keys_are_kept(keys);
}

/// A step names the monitor that it is about, where it is about one.
pub proof fn law_a_step_names_its_monitor(step: ActionStepView)
    ensures
        match step {
            ActionStepView::SetInput { monitor, .. } => step.monitor_name() == Some(monitor),
            ActionStepView::ToggleInput { monitor, .. } => step.monitor_name() == Some(monitor),
            ActionStepView::Sweep { monitor } => step.monitor_name() == monitor,
            ActionStepView::RestoreWindows { monitor } => step.monitor_name() == monitor,
            ActionStepView::Release { monitor } => step.monitor_name() == monitor,
            ActionStepView::Claim { monitor } => step.monitor_name() == monitor,
            ActionStepView::Primary { monitor } => step.monitor_name() == monitor,
            ActionStepView::Switch { .. } => step.monitor_name() is None,
            ActionStepView::Run { .. } => step.monitor_name() is None,
        },
        step.is_experimental() <==> step is Release || step is Claim || step is Primary,
{
}

/// What a step does is told with the monitor and the codes that it is about.
pub proof fn law_a_step_tells_what_it_is_about(step: ActionStepView)
    ensures
        step.monitor_name() matches Some(name) ==> has_text(step.summary(), name),
        step matches ActionStepView::SetInput { code, .. } ==> has_text(
            step.summary(),
            code_text(code),
        ),
        step matches ActionStepView::ToggleInput { first, second, .. } ==> has_text(
            step.summary(),
            code_text(first),
        ) && has_text(step.summary(), code_text(second)),
        step matches ActionStepView::Switch { destination } ==> has_text(
            step.summary(),
            destination,
        ),
        step matches ActionStepView::Run { command, .. } ==> has_text(step.summary(), command),
{
    match step {
        ActionStepView::Switch { destination } => {
            lemma_has_text_between("switch to "@, destination, Seq::empty());
        },
        ActionStepView::SetInput { monitor, code } => {
            lemma_has_text_between("set "@, monitor, " to "@ + code_text(code));
            assert("set "@ + monitor + (" to "@ + code_text(code)) =~= step.summary());
            lemma_has_text_between("set "@ + monitor + " to "@, code_text(code), Seq::empty());
        },
        ActionStepView::ToggleInput { monitor, first, second } => {
            let rest = " between "@ + code_text(first) + " and "@ + code_text(second);
            lemma_has_text_between("toggle "@, monitor, rest);
            assert("toggle "@ + monitor + rest =~= step.summary());
            let head = "toggle "@ + monitor + " between "@;
            lemma_has_text_between(head, code_text(first), " and "@ + code_text(second));
            assert(head + code_text(first) + (" and "@ + code_text(second)) =~= step.summary());
            lemma_has_text_between(
                head + code_text(first) + " and "@,
                code_text(second),
                Seq::empty(),
            );
        },
        ActionStepView::Sweep { monitor } => {
            lemma_has_text_between("sweep windows off "@, target_name(monitor), Seq::empty());
        },
        ActionStepView::RestoreWindows { monitor } => {
            lemma_has_text_between("put windows back on "@, target_name(monitor), Seq::empty());
        },
        ActionStepView::Release { monitor } => {
            lemma_has_text_between("release "@, target_name(monitor), Seq::empty());
        },
        ActionStepView::Claim { monitor } => {
            lemma_has_text_between("claim "@, target_name(monitor), Seq::empty());
        },
        ActionStepView::Primary { monitor } => {
            lemma_has_text_between("make "@, target_name(monitor), " primary"@);
        },
        ActionStepView::Run { command, args } => {
            lemma_has_text_between("run "@, command, " "@ + joined(args, " "@));
            assert("run "@ + command + (" "@ + joined(args, " "@)) =~= "run "@ + command + " "@
                + joined(args, " "@));
        },
    }
}

/// The letters and digits of a text, in lower case.
pub open spec fn spelling(s: Seq<char>) -> Seq<char>
    decreases s.len(),
{
    if s.len() == 0 {
        Seq::empty()
    } else if ascii_alphanumeric(s.last()) {
        spelling(s.drop_last()).push(ascii_lower(s.last()))
    } else {
        spelling(s.drop_last())
    }
}

/// A short name is spelled with every letter and digit of the name, in order
/// and in lower case, and with no other; a name that has none is called
/// `action`.
pub proof fn law_a_short_name_keeps_the_spelling(name: Seq<char>)
    ensures
        spelling(name).len() > 0 ==> spelling(slug_of(name)) == spelling(name),
        spelling(name).len() == 0 ==> slug_of(name) == seq!['a', 'c', 't', 'i', 'o', 'n'],
{
    reveal_strlit("action");
    lemma_dashed_spelling(name);
    lemma_stripped_spelling(dashed(name));
    assert("action"@ =~= seq!['a', 'c', 't', 'i', 'o', 'n']);
    if spelling(name).len() == 0 {
        assert(stripped_end(dashed(name), '-').len() == 0) by {
            lemma_no_spelling_no_slug(name);
        }
    }
}

proof fn lemma_dashed_spelling(name: Seq<char>)
    ensures
        spelling(dashed(name)) == spelling(name),
    decreases name.len(),
{
    if name.len() > 0 {
        lemma_dashed_spelling(name.drop_last());
        let front = dashed(name.drop_last());
        let d = dashed(name);
        if d != front {
            assert(d.drop_last() =~= front);
            if ascii_alphanumeric(name.last()) {
                let c = ascii_lower(name.last());
                assert(ascii_alphanumeric(c) && ascii_lower(c) == c);
            }
        } else if ascii_alphanumeric(name.last()) {
            assert(d.len() == front.len() + 1);
        }
    }
}

proof fn lemma_stripped_spelling(s: Seq<char>)
    ensures
        spelling(stripped_end(s, '-')) == spelling(s),
    decreases s.len(),
{
    if s.len() > 0 && s.last() == '-' {
        lemma_stripped_spelling(s.drop_last());
    }
}

proof fn lemma_no_spelling_no_slug(name: Seq<char>)
    requires
        spelling(name).len() == 0,
    ensures
        dashed(name).len() == 0,
    decreases name.len(),
{
    if name.len() > 0 {
        lemma_no_spelling_no_slug(name.drop_last());
    }
}

/// A command is shown as it is run: its name and its arguments, with blanks
/// between.
pub proof fn law_a_command_is_shown_with_its_arguments(command: Seq<char>, args: Seq<Seq<char>>)
    ensures
        (ActionStepView::Run { command, args }).summary() == "run "@ + joined(
            seq![command] + args,
            seq![' '],
        ),
{
    reveal_strlit(" ");
    assert(" "@ =~= seq![' ']);
    lemma_joined_behind(command, args, seq![' ']);
    if args.len() == 0 {
        assert(seq![command] + args =~= seq![command]);
    } else {
        assert("run "@ + command + " "@ + joined(args, " "@) =~= "run "@ + (command + " "@ + joined(
            args,
            " "@,
        )));
    }
}

proof fn lemma_joined_behind(first: Seq<char>, rest: Seq<Seq<char>>, sep: Seq<char>)
    ensures
        rest.len() > 0 ==> joined(seq![first] + rest, sep) == first + sep + joined(rest, sep),
    decreases rest.len(),
{
    let all = seq![first] + rest;
    if rest.len() == 1 {
        assert(all.drop_last() =~= seq![first]);
        assert(all.last() == rest[0]);
        assert(joined(seq![first], sep) == first);
        assert(joined(rest, sep) == rest[0]);
    } else if rest.len() > 1 {
        lemma_joined_behind(first, rest.drop_last(), sep);
        assert(all.drop_last() =~= seq![first] + rest.drop_last());
        assert(all.last() == rest.last());
        assert(joined(all, sep) =~= first + sep + joined(rest, sep));
    }
}

} // verus!

//! Telling which monitor is which: what the configuration knows about a
//! display, and where a configured monitor is that did not answer.

use vstd::prelude::*;

use crate::config::{
    copy_inputs, Config, MonitorConfig, MonitorConfigView, MonitorInput, MonitorInputView,
};
use crate::desktop::{DesktopDisplay, DesktopDisplayView};
use crate::seqs::{
    first_index, lemma_filter_take, lemma_filter_take_none, lemma_first_index,
    lemma_first_index_here, lemma_first_index_none,
};
use crate::text::{cat3, chars_of, contains_char, copy_opt, same};
use crate::types::{
    DetectedMonitor, DetectedMonitorView, Evidence, InputCapabilities, InputCapabilitiesView,
    InputSourceOptionView, MonitorIdentity, MonitorIdentityView,
};

verus! {

// ---------------------------------------------------------------------------
// Where a monitor is
// ---------------------------------------------------------------------------

/// Where a configured monitor the backend did not list actually is.
#[derive(Debug, Clone, Copy, PartialEq, Eq, Structural)]
pub enum Whereabouts {
    /// Part of this desktop, yet the backend did not list it.
    Attached,
    /// Plugged in, but turned off in this computer's display settings.
    Detached,
    /// Nothing on this computer matches it.
    Absent,
}

/// Holds of the displays that are the one with this id.
pub open spec fn is_at(backend_id: Seq<char>) -> spec_fn(DesktopDisplayView) -> bool {
    |d: DesktopDisplayView| d.matches_id(backend_id)
}

pub open spec fn whereabouts_of(
    displays: Seq<DesktopDisplayView>,
    backend_id: Seq<char>,
) -> Whereabouts {
    if exists|i: int|
        0 <= i < displays.len() && is_at(backend_id)(#[trigger] displays[i])
            && displays[i].is_attached {
        Whereabouts::Attached
    } else if exists|i: int|
        0 <= i < displays.len() && is_at(backend_id)(#[trigger] displays[i]) {
        Whereabouts::Detached
    } else {
        Whereabouts::Absent
    }
}

/// Where the monitor with this id is, as far as the desktop can tell.
pub fn whereabouts(at_os_level: &[DesktopDisplay], backend_id: &str) -> (r: Whereabouts)
    ensures
        r == whereabouts_of(at_os_level.deep_view(), backend_id@),
{
    let ghost all = at_os_level.deep_view();
    let mut found = false;
    let mut i: usize = 0;
    while i < at_os_level.len()
        invariant
            i <= at_os_level@.len(),
            all == at_os_level.deep_view(),
            found == exists|j: int|
                0 <= j < i && is_at(backend_id@)(#[trigger] all[j]),
            forall|j: int|
                0 <= j < i && is_at(backend_id@)(#[trigger] all[j]) ==> !all[j].is_attached,
        decreases at_os_level@.len() - i,
    {
        assert(all[i as int] == at_os_level@[i as int].deep_view());
        if at_os_level[i].matches_backend_id(backend_id) {
            assert(is_at(backend_id@)(all[i as int]));
            if at_os_level[i].is_attached {
                return Whereabouts::Attached;
            }
            found = true;
        }
        i += 1;
    }
    if found {
        Whereabouts::Detached
    } else {
        Whereabouts::Absent
    }
}

// ---------------------------------------------------------------------------
// What the configuration knows
// ---------------------------------------------------------------------------

pub open spec fn with_serial(serial: Option<Seq<char>>) -> spec_fn(MonitorConfigView) -> bool {
    |m: MonitorConfigView| m.serial is Some && m.serial == serial
}

pub open spec fn at_port(backend_id: Seq<char>) -> spec_fn(MonitorConfigView) -> bool {
    |m: MonitorConfigView| m.backend_id == backend_id
}

/// The configured monitor a display is: by its serial, else by its port.
pub open spec fn configured_for(
    monitors: Seq<MonitorConfigView>,
    identity: MonitorIdentityView,
) -> Option<MonitorConfigView> {
    match first_index(monitors, with_serial(identity.serial)) {
        Some(i) => Some(monitors[i]),
        None => match first_index(monitors, at_port(identity.backend_id)) {
            Some(i) => Some(monitors[i]),
            None => None,
        },
    }
}

pub open spec fn opt_monitor(o: Option<&MonitorConfig>) -> Option<MonitorConfigView> {
    match o {
        Some(m) => Some(m.deep_view()),
        None => None,
    }
}

/// The configured monitor a display is.
pub fn find_configured<'a>(config: &'a Config, identity: &MonitorIdentity) -> (r: Option<
    &'a MonitorConfig,
>)
    ensures
        opt_monitor(r) == configured_for(config.deep_view().monitors, identity.deep_view()),
{
    let ghost all = config.deep_view().monitors;
    let ghost id = identity.deep_view();
    if let Some(serial) = &identity.serial {
        let mut i: usize = 0;
        while i < config.monitors.len()
            invariant
                i <= config.monitors@.len(),
                all == config.deep_view().monitors,
                id == identity.deep_view(),
                id.serial == Some(serial@),
                forall|j: int| 0 <= j < i ==> !with_serial(id.serial)(#[trigger] all[j]),
            decreases config.monitors@.len() - i,
        {
            let m = &config.monitors[i];
            assert(all[i as int] == m.deep_view());
            if let Some(sn) = &m.serial {
                if same(sn.as_str(), serial.as_str()) {
                    proof {
                        lemma_first_index_here(all, with_serial(id.serial), i as int);
                    }
                    return Some(m);
                }
            }
            i += 1;
        }
        proof {
            lemma_first_index_none(all, with_serial(id.serial));
        }
    } else {
        proof {
            lemma_first_index_none(all, with_serial(id.serial));
        }
    }
    let mut i: usize = 0;
    while i < config.monitors.len()
        invariant
            i <= config.monitors@.len(),
            all == config.deep_view().monitors,
            id == identity.deep_view(),
            first_index(all, with_serial(id.serial)) is None,
            forall|j: int| 0 <= j < i ==> !at_port(id.backend_id)(#[trigger] all[j]),
        decreases config.monitors@.len() - i,
    {
        let m = &config.monitors[i];
        assert(all[i as int] == m.deep_view());
        if same(m.backend_id.as_str(), identity.backend_id.as_str()) {
            proof {
                lemma_first_index_here(all, at_port(id.backend_id), i as int);
            }
            return Some(m);
        }
        i += 1;
    }
    proof {
        lemma_first_index_none(all, at_port(id.backend_id));
    }
    None
}

/// A panel is recognised wherever it is plugged in: a display whose serial is
/// configured is the monitor with that serial, whatever its port.
pub proof fn law_a_panel_is_known_by_its_serial(
    monitors: Seq<MonitorConfigView>,
    identity: MonitorIdentityView,
    i: int,
)
    requires
        0 <= i < monitors.len(),
        identity.serial is Some,
        monitors[i].serial == identity.serial,
    ensures
        configured_for(monitors, identity) matches Some(m) && m.serial == identity.serial,
{
    lemma_first_index(monitors, with_serial(identity.serial));
    assert(with_serial(identity.serial)(monitors[i]));
}

pub open spec fn is_switchable() -> spec_fn(DetectedMonitorView) -> bool {
    |d: DetectedMonitorView| d.switchable()
}

pub open spec fn monitor_views(v: Seq<&DetectedMonitor>) -> Seq<DetectedMonitorView> {
    v.map_values(|d: &DetectedMonitor| d.deep_view())
}

/// The displays whose input can be switched.
pub fn switchable_monitors(detected: &[DetectedMonitor]) -> (r: Vec<&DetectedMonitor>)
    ensures
        monitor_views(r@) == detected.deep_view().filter(is_switchable()),
{
    let ghost all = detected.deep_view();
    let ghost p = is_switchable();
    let mut out: Vec<&DetectedMonitor> = Vec::new();
    let mut i: usize = 0;
    proof {
        lemma_filter_take_none(all, p);
        assert(monitor_views(out@) =~= all.take(0).filter(p));
    }
    while i < detected.len()
        invariant
            i <= detected@.len(),
            all == detected.deep_view(),
            p == is_switchable(),
            monitor_views(out@) == all.take(i as int).filter(p),
        decreases detected@.len() - i,
    {
        proof {
            lemma_filter_take(all, p, i as int);
            assert(all[i as int] == detected@[i as int].deep_view());
        }
        if detected[i].identity.transport.supports_input_switching() {
            let ghost had = out@;
            out.push(&detected[i]);
            assert(monitor_views(out@) =~= monitor_views(had).push(all[i as int]));
        }
        i += 1;
    }
    proof {
        lemma_filter_take_none(all, p);
    }
    out
}

// ---------------------------------------------------------------------------
// Monitors that did not answer
// ---------------------------------------------------------------------------

/// A display is the monitor with this key.
pub open spec fn is_monitor(
    monitors: Seq<MonitorConfigView>,
    identity: MonitorIdentityView,
    key: Seq<char>,
) -> bool {
    configured_for(monitors, identity) matches Some(c) && c.key == key
}

/// One of the displays is the monitor with this key.
pub open spec fn answered(
    monitors: Seq<MonitorConfigView>,
    present: Seq<MonitorIdentityView>,
    key: Seq<char>,
) -> bool {
    exists|j: int|
        0 <= j < present.len() && is_monitor(monitors, #[trigger] present[j], key)
}

pub open spec fn unanswered_by(
    monitors: Seq<MonitorConfigView>,
    present: Seq<MonitorIdentityView>,
) -> spec_fn(MonitorConfigView) -> bool {
    |m: MonitorConfigView| !answered(monitors, present, m.key)
}

pub open spec fn config_views(v: Seq<&MonitorConfig>) -> Seq<MonitorConfigView> {
    v.map_values(|m: &MonitorConfig| m.deep_view())
}

pub open spec fn identity_views(v: Seq<&MonitorIdentity>) -> Seq<MonitorIdentityView> {
    v.map_values(|i: &MonitorIdentity| i.deep_view())
}

fn is_answered(config: &Config, present: &Vec<&MonitorIdentity>, key: &str) -> (r: bool)
    ensures
        r == answered(config.deep_view().monitors, identity_views(present@), key@),
{
    let ghost monitors = config.deep_view().monitors;
    let ghost all = identity_views(present@);
    let mut j: usize = 0;
    while j < present.len()
        invariant
            j <= present@.len(),
            monitors == config.deep_view().monitors,
            all == identity_views(present@),
            forall|k: int|
                0 <= k < j ==> !is_monitor(monitors, #[trigger] all[k], key@),
        decreases present@.len() - j,
    {
        assert(all[j as int] == present@[j as int].deep_view());
        if let Some(c) = find_configured(config, present[j]) {
            if same(c.key.as_str(), key) {
                return true;
            }
        }
        j += 1;
    }
    false
}

/// The configured monitors that none of the displays is.
pub fn unanswered<'a>(config: &'a Config, present: &Vec<&MonitorIdentity>) -> (r: Vec<
    &'a MonitorConfig,
>)
    ensures
        config_views(r@) == config.deep_view().monitors.filter(
            unanswered_by(config.deep_view().monitors, identity_views(present@)),
        ),
{
    let ghost all = config.deep_view().monitors;
    let ghost p = unanswered_by(all, identity_views(present@));
    let mut out: Vec<&'a MonitorConfig> = Vec::new();
    let mut i: usize = 0;
    proof {
        lemma_filter_take_none(all, p);
        assert(config_views(out@) =~= all.take(0).filter(p));
    }
    while i < config.monitors.len()
        invariant
            i <= config.monitors@.len(),
            all == config.deep_view().monitors,
            p == unanswered_by(all, identity_views(present@)),
            config_views(out@) == all.take(i as int).filter(p),
        decreases config.monitors@.len() - i,
    {
        proof {
            lemma_filter_take(all, p, i as int);
            assert(all[i as int] == config.monitors@[i as int].deep_view());
        }
        if !is_answered(config, present, config.monitors[i].key.as_str()) {
            let ghost had = out@;
            out.push(&config.monitors[i]);
            assert(config_views(out@) =~= config_views(had).push(all[i as int]));
        }
        i += 1;
    }
    proof {
        lemma_filter_take_none(all, p);
    }
    out
}

// ---------------------------------------------------------------------------
// Inputs
// ---------------------------------------------------------------------------

/// The inputs a monitor claims, as none of them has been tried.
pub open spec fn claimed(options: Seq<InputSourceOptionView>) -> Seq<MonitorInputView> {
    options.map_values(|o: InputSourceOptionView| MonitorInputView::reported(o.code, o.label))
}

/// Configured inputs when there are some, otherwise whatever the monitor says.
pub open spec fn inputs_known(
    configured: Option<MonitorConfigView>,
    capabilities: Option<InputCapabilitiesView>,
) -> Seq<MonitorInputView> {
    if configured is Some && configured->0.inputs.len() > 0 {
        configured->0.inputs
    } else {
        match capabilities {
            Some(caps) => claimed(caps.options),
            None => Seq::empty(),
        }
    }
}

pub open spec fn opt_capabilities(o: Option<InputCapabilities>) -> Option<InputCapabilitiesView> {
    match o {
        Some(c) => Some(c.deep_view()),
        None => None,
    }
}

/// Whether the monitor has to be asked for its inputs.
pub fn must_ask(configured: Option<&MonitorConfig>) -> (r: bool)
    ensures
        r == !(opt_monitor(configured) is Some && opt_monitor(configured)->0.inputs.len() > 0),
{
    match configured {
        Some(c) => c.inputs.len() == 0,
        None => true,
    }
}

/// The inputs of a monitor, from the configuration or from what it says.
pub fn known_inputs(
    configured: Option<&MonitorConfig>,
    capabilities: &Option<InputCapabilities>,
) -> (r: Vec<MonitorInput>)
    ensures
        r.deep_view() == inputs_known(
            opt_monitor(configured),
            opt_capabilities(*capabilities),
        ),
{
    if let Some(c) = configured {
        if c.inputs.len() > 0 {
            return copy_inputs(&c.inputs);
        }
    }
    let mut out: Vec<MonitorInput> = Vec::new();
    match capabilities {
        None => {
            assert(out.deep_view() =~= Seq::<MonitorInputView>::empty());
        },
        Some(caps) => {
            let ghost want = claimed(caps.deep_view().options);
            let mut i: usize = 0;
            assert(out.deep_view() =~= want.take(0));
            while i < caps.options.len()
                invariant
                    i <= caps.options@.len(),
                    want == claimed(caps.deep_view().options),
                    out.deep_view() == want.take(i as int),
                decreases caps.options@.len() - i,
            {
                let o = &caps.options[i];
                assert(caps.deep_view().options[i as int] == o.deep_view());
                let ghost had = out.deep_view();
                let input = MonitorInput::reported(o.code, copy_opt(&o.label));
                assert(input.deep_view() == want[i as int]);
                out.push(input);
                assert(out.deep_view() =~= had.push(want[i as int]));
                assert(out.deep_view() =~= want.take(i as int + 1));
                i += 1;
            }
            assert(want.take(want.len() as int) =~= want);
        },
    }
    out
}

// ---------------------------------------------------------------------------
// Names in commands
// ---------------------------------------------------------------------------

/// A name as it can be typed in a command: in quotes where it holds a space.
pub open spec fn typed(s: Seq<char>) -> Seq<char> {
    if s.contains(' ') {
        "\""@ + s + "\""@
    } else {
        s
    }
}

pub fn shell_quote(s: &str) -> (r: String)
    ensures
        r@ == typed(s@),
{
    let cs = chars_of(s);
    if contains_char(cs.as_slice(), ' ') {
        cat3("\"", s, "\"")
    } else {
        s.to_owned()
    }
}

/// A display is the first configured monitor with its serial, where one has it;
/// else the first on its connection, where one is; else none.
pub proof fn law_a_display_is_known_by_its_serial_then_its_port(
    monitors: Seq<MonitorConfigView>,
    identity: MonitorIdentityView,
)
    ensures
        match configured_for(monitors, identity) {
            Some(m) => exists|i: int|
                {
                    &&& 0 <= i < monitors.len()
                    &&& #[trigger] monitors[i] == m
                    &&& (identity.serial is Some && m.serial == identity.serial && forall|j: int|
                        0 <= j < i ==> (#[trigger] monitors[j]).serial != identity.serial) || (
                    m.backend_id == identity.backend_id && (forall|j: int|
                        0 <= j < i ==> (#[trigger] monitors[j]).backend_id != identity.backend_id)
                        && (identity.serial is Some ==> forall|j: int|
                        0 <= j < monitors.len() ==> (#[trigger] monitors[j]).serial
                            != identity.serial))
                },
            None => forall|j: int|
                0 <= j < monitors.len() ==> (#[trigger] monitors[j]).backend_id
                    != identity.backend_id && (identity.serial is Some ==> monitors[j].serial
                    != identity.serial),
        },
{
    let p = with_serial(identity.serial);
    let q = at_port(identity.backend_id);
    lemma_first_index(monitors, p);
    lemma_first_index(monitors, q);
    if let Some(i) = first_index(monitors, p) {
        assert(p(monitors[i]));
        assert forall|j: int| 0 <= j < i implies (#[trigger] monitors[j]).serial
            != identity.serial by {
            assert(!p(monitors[j]));
        }
    } else {
        assert forall|j: int| 0 <= j < monitors.len() && identity.serial is Some implies (
        #[trigger] monitors[j]).serial != identity.serial by {
            assert(!p(monitors[j]));
        }
        if let Some(i) = first_index(monitors, q) {
            assert(q(monitors[i]));
            assert forall|j: int| 0 <= j < i implies (#[trigger] monitors[j]).backend_id
                != identity.backend_id by {
                assert(!q(monitors[j]));
            }
        } else {
            assert forall|j: int| 0 <= j < monitors.len() implies (
            #[trigger] monitors[j]).backend_id != identity.backend_id by {
                assert(!q(monitors[j]));
            }
        }
    }
}

/// A connection is part of the desktop where an attached display has it, plugged
/// in but off where only others do, and absent where none does.
pub proof fn law_a_connection_is_where_its_displays_are(
    displays: Seq<DesktopDisplayView>,
    backend_id: Seq<char>,
)
    ensures
        whereabouts_of(displays, backend_id) == Whereabouts::Attached <==> exists|i: int|
            0 <= i < displays.len() && (#[trigger] displays[i]).matches_id(backend_id)
                && displays[i].is_attached,
        whereabouts_of(displays, backend_id) == Whereabouts::Absent <==> forall|i: int|
            0 <= i < displays.len() ==> !(#[trigger] displays[i]).matches_id(backend_id),
{
    let p = is_at(backend_id);
    assert forall|i: int| 0 <= i < displays.len() implies p(#[trigger] displays[i])
        == displays[i].matches_id(backend_id) by {}
    if exists|i: int|
        0 <= i < displays.len() && (#[trigger] displays[i]).matches_id(backend_id)
            && displays[i].is_attached {
        let i = choose|i: int|
            0 <= i < displays.len() && (#[trigger] displays[i]).matches_id(backend_id)
                && displays[i].is_attached;
        assert(p(displays[i]) && displays[i].is_attached);
    }
    if exists|i: int| 0 <= i < displays.len() && (#[trigger] displays[i]).matches_id(backend_id) {
        let i = choose|i: int|
            0 <= i < displays.len() && (#[trigger] displays[i]).matches_id(backend_id);
        assert(p(displays[i]));
    }
}

/// The inputs of a monitor are those that are configured, where any is; else
/// those it claims, each with its code and its name, and only reported.
pub proof fn law_configured_inputs_come_before_claimed_ones(
    configured: Option<MonitorConfigView>,
    capabilities: Option<InputCapabilitiesView>,
    k: int,
)
    ensures
        configured matches Some(m) && m.inputs.len() > 0 ==> inputs_known(configured, capabilities)
            == configured->0.inputs,
        !(configured matches Some(m) && m.inputs.len() > 0) ==> match capabilities {
            None => inputs_known(configured, capabilities).len() == 0,
            Some(caps) => {
                let known = inputs_known(configured, capabilities);
                &&& known.len() == caps.options.len()
                &&& 0 <= k < known.len() ==> known[k].input_code == caps.options[k].code
                    && known[k].label == caps.options[k].label && known[k].verification
                    == Evidence::Reported
            },
        },
{
}

/// A name is told so that a shell reads it as one word.
pub proof fn law_a_name_with_spaces_is_quoted(s: Seq<char>)
    ensures
        !s.contains(' ') ==> typed(s) == s,
        s.contains(' ') ==> typed(s).len() == s.len() + 2 && typed(s)[0] == '"' && typed(s).last()
            == '"' && typed(s).subrange(1, s.len() as int + 1) == s,
{
    reveal_strlit("\"");
    if s.contains(' ') {
        assert(typed(s).subrange(1, s.len() as int + 1) =~= s);
    }
}

} // verus!

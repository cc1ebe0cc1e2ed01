//! Configuring, as a conversation: each display is put forward, and whoever is
//! at the terminal says whether to manage it and what to call it.

use vstd::prelude::*;

use crate::backend::{
    capabilities_result, reading_answer, BackendErrorView, Exchange, MonitorBackend,
};
use crate::config::{BackendKind, Config, ConfigView, MonitorConfig, MonitorConfigView};
use crate::listing::opt_config;
use crate::lookup::{
    configured_for, find_configured, is_switchable, monitor_views, opt_monitor,
    switchable_monitors,
};
use crate::page::{said, Page};
use crate::prompt::PromptError;
use crate::setup::{
    begin_config, begun, candidate_lines, candidate_page, config_result, configurable,
    finish_config, finished, inputs_lines, inputs_recorded, opening, opening_lines,
    record_inputs, record_monitor, recorded, setup_problem, suggested_name,
};
use crate::survey::answered;
use crate::terminal::{Remark, Terminal};
use crate::types::{
    DetectedMonitor, DetectedMonitorView, InputCapabilitiesView, InputReadingView,
    MonitorIdentityView,
};

verus! {

// ---------------------------------------------------------------------------
// One display
// ---------------------------------------------------------------------------

/// One display's turn: what it shows, whether it is to be managed, and then
/// under which name and with which inputs.
pub struct Turn {
    pub reading: Result<InputReadingView, BackendErrorView>,
    pub managed: bool,
    pub label: Seq<char>,
    pub capabilities: Result<InputCapabilitiesView, BackendErrorView>,
}

/// What was recorded of a display before.
pub open spec fn known_before(existing: Option<ConfigView>, identity: MonitorIdentityView) ->
    Option<MonitorConfigView> {
    match existing {
        Some(c) => configured_for(c.monitors, identity),
        None => None,
    }
}

/// The name suggested for a display: the one it has, else what it is.
pub open spec fn suggestion(existing: Option<ConfigView>, identity: MonitorIdentityView) -> Seq<
    char,
> {
    match known_before(existing, identity) {
        Some(m) => m.label,
        None => identity.description(),
    }
}

/// What the display is asked in its turn.
pub open spec fn turn_exchanges(m: DetectedMonitorView, turn: Turn) -> Seq<Exchange> {
    let first = seq![Exchange::Read(m.handle(), turn.reading)];
    if turn.managed {
        first.push(Exchange::Asked(m.handle(), turn.capabilities))
    } else {
        first
    }
}

/// What is recorded of the display, if it is to be managed.
pub open spec fn turn_records(
    existing: Option<ConfigView>,
    m: DetectedMonitorView,
    turn: Turn,
) -> Option<MonitorConfigView> {
    if turn.managed {
        Some(
            recorded(
                m.identity,
                turn.label,
                inputs_recorded(
                    answered(turn.capabilities),
                    known_before(existing, m.identity),
                ),
            ),
        )
    } else {
        None
    }
}

/// What is said and asked in a turn, in order.
pub open spec fn turn_talk(existing: Option<ConfigView>, m: DetectedMonitorView, turn: Turn) -> Seq<
    Remark,
> {
    let first = seq![
        Remark::Said(candidate_lines(m.identity, answered(turn.reading))),
        Remark::Confirmed("  Manage this monitor?"@, Ok(turn.managed)),
    ];
    first + if turn.managed {
        seq![
            Remark::Named(
                "  A name for it"@,
                suggestion(existing, m.identity),
                Ok(turn.label),
            ),
            Remark::Said(
                inputs_lines(answered(turn.capabilities), known_before(existing, m.identity)),
            ),
        ]
    } else {
        seq![Remark::Said(said("  Skipped."@))]
    }
}

/// A question that broke the conversation off.
pub struct Break {
    /// What the display of that turn had answered.
    pub reading: Result<InputReadingView, BackendErrorView>,
    /// The display was to be managed, and it was its name that was asked for.
    pub managed: bool,
    pub why: Seq<char>,
}

/// What is said and asked in a turn that a question broke off, in order.
pub open spec fn broken_talk(existing: Option<ConfigView>, m: DetectedMonitorView, b: Break) -> Seq<
    Remark,
> {
    let first = Remark::Said(candidate_lines(m.identity, answered(b.reading)));
    if b.managed {
        seq![
            first,
            Remark::Confirmed("  Manage this monitor?"@, Ok(true)),
            Remark::Named("  A name for it"@, suggestion(existing, m.identity), Err(b.why)),
        ]
    } else {
        seq![first, Remark::Confirmed("  Manage this monitor?"@, Err(b.why))]
    }
}

/// What came of a turn: what is recorded of the display, if anything is, or
/// why the conversation broke off.
fn take_turn<
    B: MonitorBackend,
    S: Fn(&Page),
    C: Fn(&str) -> Result<bool, PromptError>,
    A: Fn(&str, &str) -> Result<String, PromptError>,
>(
    monitor: &DetectedMonitor,
    existing: Option<&Config>,
    backend: &mut B,
    terminal: &mut Terminal<S, C, A>,
) -> (r: (Result<Option<MonitorConfig>, String>, Ghost<Turn>))
    ensures
        final(backend).sent() == old(backend).sent(),
        match r.0 {
            Ok(kept) => {
                &&& final(terminal).talk() == old(terminal).talk() + turn_talk(
                    opt_config(existing),
                    monitor.deep_view(),
                    r.1@,
                )
                &&& match kept {
                    Some(c) => turn_records(opt_config(existing), monitor.deep_view(), r.1@)
                        == Some(c.deep_view()),
                    None => turn_records(opt_config(existing), monitor.deep_view(), r.1@) is None,
                }
                &&& final(backend).heard() == old(backend).heard() + turn_exchanges(
                    monitor.deep_view(),
                    r.1@,
                )
            },
            Err(why) => {
                &&& final(terminal).talk() == old(terminal).talk() + broken_talk(
                    opt_config(existing),
                    monitor.deep_view(),
                    (Break { reading: r.1@.reading, managed: r.1@.managed, why: why@ }),
                )
                &&& final(backend).heard() == old(backend).heard().push(
                    Exchange::Read(monitor.deep_view().handle(), r.1@.reading),
                )
            },
        },
{
    let ghost m = monitor.deep_view();
    let ghost before = opt_config(existing);
    let ghost start = terminal.talk();
    let handle = monitor.handle();
    let previous = match existing {
        Some(c) => find_configured(c, &monitor.identity),
        None => None,
    };
    assert(opt_monitor(previous) == known_before(before, m.identity));
    let read = backend.read_input(&handle);
    let ghost mut turn = Turn {
        reading: reading_answer(read),
        managed: false,
        label: Seq::empty(),
        capabilities: Err(BackendErrorView::Io(Seq::empty())),
    };
    let reading = match read {
        Ok(r) => Some(r),
        Err(_) => None,
    };
    terminal.say(candidate_page(&monitor.identity, &reading));
    match terminal.confirm("  Manage this monitor?") {
        Err(e) => {
            let why = e.to_string();
            assert(terminal.talk() =~= start + broken_talk(
                before,
                m,
                Break { reading: turn.reading, managed: false, why: why@ },
            ));
            return (Err(why), Ghost(turn));
        },
        Ok(false) => {
            let mut page = Page::new();
            page.put("  Skipped.");
            assert(page@ =~= said("  Skipped."@));
            terminal.say(page);
            assert(terminal.talk() =~= start + turn_talk(before, m, turn));
            assert(backend.heard() =~= old(backend).heard() + turn_exchanges(m, turn));
            return (Ok(None), Ghost(turn));
        },
        Ok(true) => {},
    }
    proof {
        turn = Turn { managed: true, ..turn };
    }
    let suggested = suggested_name(previous, &monitor.identity);
    let label = match terminal.ask("  A name for it", suggested.as_str()) {
        Ok(label) => label,
        Err(e) => {
            let why = e.to_string();
            assert(terminal.talk() =~= start + broken_talk(
                before,
                m,
                Break { reading: turn.reading, managed: true, why: why@ },
            ));
            return (Err(why), Ghost(turn));
        },
    };
    let claim = backend.input_capabilities(&handle);
    proof {
        turn = Turn { label: label@, capabilities: capabilities_result(claim), ..turn };
    }
    let capabilities = match claim {
        Ok(c) => Some(c),
        Err(_) => None,
    };
    let (inputs, page) = record_inputs(&capabilities, previous);
    terminal.say(page);
    assert(terminal.talk() =~= start + turn_talk(before, m, turn));
    assert(backend.heard() =~= old(backend).heard() + turn_exchanges(m, turn));
    (Ok(Some(record_monitor(&monitor.identity, label, inputs))), Ghost(turn))
}

// ---------------------------------------------------------------------------
// All of them
// ---------------------------------------------------------------------------

/// What the displays are asked, turn by turn.
pub open spec fn all_turn_exchanges(ms: Seq<DetectedMonitorView>, turns: Seq<Turn>) -> Seq<Exchange>
    decreases turns.len(),
{
    if turns.len() == 0 {
        Seq::empty()
    } else {
        let last = turns.len() - 1;
        all_turn_exchanges(ms, turns.drop_last()) + turn_exchanges(ms[last], turns[last])
    }
}

/// The displays that are managed, in order.
pub open spec fn all_recorded(
    existing: Option<ConfigView>,
    ms: Seq<DetectedMonitorView>,
    turns: Seq<Turn>,
) -> Seq<MonitorConfigView>
    decreases turns.len(),
{
    if turns.len() == 0 {
        Seq::empty()
    } else {
        let last = turns.len() - 1;
        let front = all_recorded(existing, ms, turns.drop_last());
        match turn_records(existing, ms[last], turns[last]) {
            Some(m) => front.push(m),
            None => front,
        }
    }
}

/// What is said and asked, turn by turn.
pub open spec fn all_turn_talk(
    existing: Option<ConfigView>,
    ms: Seq<DetectedMonitorView>,
    turns: Seq<Turn>,
) -> Seq<Remark>
    decreases turns.len(),
{
    if turns.len() == 0 {
        Seq::empty()
    } else {
        let last = turns.len() - 1;
        all_turn_talk(existing, ms, turns.drop_last()) + turn_talk(
            existing,
            ms[last],
            turns[last],
        )
    }
}

/// The whole conversation, up to where it was broken off.
pub open spec fn whole_talk(
    existing: Option<ConfigView>,
    ms: Seq<DetectedMonitorView>,
    turns: Seq<Turn>,
    broken: Option<Break>,
) -> Seq<Remark> {
    seq![Remark::Said(opening_lines())] + all_turn_talk(existing, ms, turns) + match broken {
        None => Seq::empty(),
        Some(b) => broken_talk(existing, ms[turns.len() as int], b),
    }
}

/// The conversation about these displays went like this, up to where it was
/// broken off, and nothing else was said or asked.
pub open spec fn talked(
    before: Seq<Remark>,
    after: Seq<Remark>,
    existing: Option<ConfigView>,
    ms: Seq<DetectedMonitorView>,
    turns: Seq<Turn>,
    broken: Option<Break>,
) -> bool {
    &&& after == before + whole_talk(existing, ms, turns, broken)
    &&& match broken {
        None => turns.len() == ms.len(),
        Some(_) => turns.len() < ms.len(),
    }
}

/// What the backend was asked meanwhile.
pub open spec fn talk_exchanges(
    ms: Seq<DetectedMonitorView>,
    turns: Seq<Turn>,
    broken: Option<Break>,
) -> Seq<Exchange> {
    let whole = all_turn_exchanges(ms, turns);
    match broken {
        None => whole,
        Some(b) => whole.push(Exchange::Read(ms[turns.len() as int].handle(), b.reading)),
    }
}

/// The configuration that the conversation ends with, or why there is none.
pub open spec fn talk_result(
    host: Seq<char>,
    backend: BackendKind,
    existing: Option<ConfigView>,
    ms: Seq<DetectedMonitorView>,
    turns: Seq<Turn>,
    broken: Option<Break>,
) -> Result<ConfigView, Seq<char>> {
    match broken {
        Some(b) => Err(b.why),
        None => finished(
            ConfigView {
                monitors: all_recorded(existing, ms, turns),
                ..begun(host, backend, existing)
            },
        ),
    }
}

/// Records which monitors exist and what inputs they offer, asking about each.
/// It writes nothing to a monitor.
pub fn configure<
    B: MonitorBackend,
    S: Fn(&Page),
    C: Fn(&str) -> Result<bool, PromptError>,
    A: Fn(&str, &str) -> Result<String, PromptError>,
>(
    detected: &[DetectedMonitor],
    host: &str,
    kind: BackendKind,
    existing: Option<&Config>,
    backend: &mut B,
    terminal: &mut Terminal<S, C, A>,
) -> (r: Result<Config, String>)
    ensures
        final(backend).sent() == old(backend).sent(),
        match setup_problem(detected.deep_view()) {
            Some(why) => {
                &&& config_result(r) == Err::<ConfigView, Seq<char>>(why)
                &&& final(backend).heard() == old(backend).heard()
                &&& final(terminal).talk() == old(terminal).talk()
            },
            None => exists|turns: Seq<Turn>, broken: Option<Break>|
                {
                    &&& #[trigger] talked(
                        old(terminal).talk(),
                        final(terminal).talk(),
                        opt_config(existing),
                        detected.deep_view().filter(is_switchable()),
                        turns,
                        broken,
                    )
                    &&& final(backend).heard() == old(backend).heard() + talk_exchanges(
                        detected.deep_view().filter(is_switchable()),
                        turns,
                        broken,
                    )
                    &&& config_result(r) == talk_result(
                        host@,
                        kind,
                        opt_config(existing),
                        detected.deep_view().filter(is_switchable()),
                        turns,
                        broken,
                    )
                },
        },
{
    let ghost before = opt_config(existing);
    let ghost ms = detected.deep_view().filter(is_switchable());
    match configurable(detected) {
        Ok(_) => {},
        Err(why) => {
            return Err(why);
        },
    }
    let ghost start = terminal.talk();
    terminal.say(opening());
    let monitors = switchable_monitors(detected);
    let mut config = begin_config(host, kind, existing);
    let ghost fresh = config.deep_view();
    let ghost mut turns: Seq<Turn> = Seq::empty();
    let mut i: usize = 0;
    assert(config.monitors.deep_view() =~= all_recorded(before, ms, turns));
    assert(backend.heard() =~= old(backend).heard() + all_turn_exchanges(ms, turns));
    let ghost none: Option<Break> = None;
    assert(terminal.talk() =~= start + whole_talk(before, ms, turns, none));
    while i < monitors.len()
        invariant
            i <= monitors@.len(),
            start == old(terminal).talk(),
            none is None,
            terminal.talk() == start + whole_talk(before, ms, turns, none),
            before == opt_config(existing),
            ms == monitor_views(monitors@),
            ms == detected.deep_view().filter(is_switchable()),
            setup_problem(detected.deep_view()) is None,
            turns.len() == i,
            config.deep_view() == (ConfigView {
                monitors: all_recorded(before, ms, turns),
                ..fresh
            }),
            fresh == begun(host@, kind, before),
            backend.heard() == old(backend).heard() + all_turn_exchanges(ms, turns),
            backend.sent() == old(backend).sent(),
        decreases monitors@.len() - i,
    {
        assert(ms[i as int] == monitors@[i as int].deep_view());
        let ghost heard = backend.heard();
        let (kept, Ghost(turn)) = take_turn(monitors[i], existing, backend, terminal);
        match kept {
            Err(why) => {
                let ghost broken = Some(
                    Break { reading: turn.reading, managed: turn.managed, why: why@ },
                );
                proof {
                    assert(terminal.talk() =~= start + whole_talk(before, ms, turns, broken));
                    assert(talked(start, terminal.talk(), before, ms, turns, broken));
                    assert(backend.heard() =~= old(backend).heard() + talk_exchanges(
                        ms,
                        turns,
                        broken,
                    ));
                }
                return Err(why);
            },
            Ok(kept) => {
                let ghost had = config.monitors.deep_view();
                proof {
                    let old_turns = turns;
                    turns = turns.push(turn);
                    assert(turns.drop_last() =~= old_turns);
                    assert(terminal.talk() =~= start + whole_talk(before, ms, turns, none));
                    assert(backend.heard() =~= old(backend).heard() + all_turn_exchanges(
                        ms,
                        turns,
                    ));
                }
                if let Some(m) = kept {
                    let ghost view = m.deep_view();
                    config.monitors.push(m);
                    assert(config.monitors.deep_view() =~= had.push(view));
                }
            },
        }
        i += 1;
    }
    assert(talked(start, terminal.talk(), before, ms, turns, none));
    finish_config(config)
}

/// Every display that a person chose to manage is recorded, as itself and under
/// the name they gave it; no other is.
pub proof fn law_what_was_chosen_is_recorded(
    existing: Option<ConfigView>,
    ms: Seq<DetectedMonitorView>,
    turns: Seq<Turn>,
    k: int,
)
    requires
        0 <= k < turns.len() <= ms.len(),
    ensures
        turns[k].managed ==> exists|i: int|
            0 <= i < all_recorded(existing, ms, turns).len() && {
                let m = #[trigger] all_recorded(existing, ms, turns)[i];
                &&& m.label == turns[k].label
                &&& m.backend_id == ms[k].identity.backend_id
                &&& m.serial == ms[k].identity.serial
                &&& m.model == ms[k].identity.model
            },
        all_recorded(existing, ms, turns).len() == managed_in(turns),
{
    lemma_recorded_count(existing, ms, turns);
    if turns[k].managed {
        let i = lemma_recorded_at(existing, ms, turns, k);
        let m = all_recorded(existing, ms, turns)[i];
        assert(m.label == turns[k].label);
    }
}

/// How many displays a person chose to manage.
pub open spec fn managed_in(turns: Seq<Turn>) -> nat
    decreases turns.len(),
{
    if turns.len() == 0 {
        0
    } else {
        managed_in(turns.drop_last()) + if turns.last().managed {
            1nat
        } else {
            0nat
        }
    }
}

proof fn lemma_recorded_count(
    existing: Option<ConfigView>,
    ms: Seq<DetectedMonitorView>,
    turns: Seq<Turn>,
)
    ensures
        all_recorded(existing, ms, turns).len() == managed_in(turns),
    decreases turns.len(),
{
    if turns.len() > 0 {
        lemma_recorded_count(existing, ms, turns.drop_last());
    }
}

proof fn lemma_recorded_at(
    existing: Option<ConfigView>,
    ms: Seq<DetectedMonitorView>,
    turns: Seq<Turn>,
    k: int,
) -> (i: int)
    requires
        0 <= k < turns.len() <= ms.len(),
        turns[k].managed,
    ensures
        0 <= i < all_recorded(existing, ms, turns).len(),
        all_recorded(existing, ms, turns)[i].label == turns[k].label,
        all_recorded(existing, ms, turns)[i].backend_id == ms[k].identity.backend_id,
        all_recorded(existing, ms, turns)[i].serial == ms[k].identity.serial,
        all_recorded(existing, ms, turns)[i].model == ms[k].identity.model,
    decreases turns.len(),
{
    let front = all_recorded(existing, ms, turns.drop_last());
    if k == turns.len() - 1 {
        front.len() as int
    } else {
        let i = lemma_recorded_at(existing, ms, turns.drop_last(), k);
        assert(all_recorded(existing, ms, turns)[i] == front[i]);
        i
    }
}

/// Setting up writes nothing to any monitor.
pub proof fn law_setting_up_writes_nothing(
    ms: Seq<DetectedMonitorView>,
    turns: Seq<Turn>,
    broken: Option<Break>,
    i: int,
)
    requires
        0 <= i < talk_exchanges(ms, turns, broken).len(),
    ensures
        talk_exchanges(ms, turns, broken)[i] !is Wrote,
{
    lemma_turns_write_nothing(ms, turns);
}

proof fn lemma_turns_write_nothing(ms: Seq<DetectedMonitorView>, turns: Seq<Turn>)
    ensures
        forall|i: int|
            0 <= i < all_turn_exchanges(ms, turns).len() ==> #[trigger] all_turn_exchanges(
                ms,
                turns,
            )[i] !is Wrote,
    decreases turns.len(),
{
    if turns.len() > 0 {
        lemma_turns_write_nothing(ms, turns.drop_last());
        let front = all_turn_exchanges(ms, turns.drop_last());
        let all = all_turn_exchanges(ms, turns);
        assert forall|i: int| 0 <= i < all.len() implies #[trigger] all[i] !is Wrote by {
            if i < front.len() {
                assert(all[i] == front[i]);
            }
        }
    }
}

/// What comes of it is the recorded monitors with the settings there were; a
/// talk that was broken off saves nothing.
pub proof fn law_a_broken_talk_saves_nothing(
    host: Seq<char>,
    backend: BackendKind,
    existing: Option<ConfigView>,
    ms: Seq<DetectedMonitorView>,
    turns: Seq<Turn>,
    broken: Option<Break>,
)
    ensures
        broken matches Some(b) ==> talk_result(host, backend, existing, ms, turns, broken) == Err::<
            ConfigView,
            Seq<char>,
        >(b.why),
        talk_result(host, backend, existing, ms, turns, broken) matches Ok(c) ==> c.monitors
            == all_recorded(existing, ms, turns) && c.monitors.len() > 0 && c.host == host
            && c.backend == backend,
        broken is None && all_recorded(existing, ms, turns).len() > 0 ==> talk_result(
            host,
            backend,
            existing,
            ms,
            turns,
            broken,
        ) is Ok,
{
}

} // verus!

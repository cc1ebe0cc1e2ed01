//! Binding configured monitors to the displays actually present right now.
//!
//! The rule that shapes this module: a write is only issued when exactly one
//! physical display can be identified for a configured entry. Monitor numbers
//! are never used as a fallback, because they are discovery-time addresses
//! that move when a display sleeps, a dock re-enumerates, or a cable is
//! replugged. Writing the right input code to the wrong monitor is the exact
//! failure that leaves someone with two blank screens.

use vstd::prelude::*;

use crate::actions::places;
use crate::config::{Config, MonitorConfig, MonitorConfigView};
use crate::digits::{dec, decimal};
use crate::seqs::{
    first_index, lemma_filter_members, lemma_filter_multiset, lemma_filter_no_one,
    lemma_filter_one, lemma_filter_take, lemma_filter_take_none, lemma_filter_two,
    lemma_first_index, lemma_first_index_here, lemma_first_index_none,
};
use crate::text::{
    cat2, cat3, cat4, cat5, cat6, cat7, copy_texts, has_text, join, joined, lemma_has_text_between,
    same, texts,
};
use crate::types::{DetectedMonitor, DetectedMonitorView, MonitorHandle};

verus! {

// ---------------------------------------------------------------------------
// Results
// ---------------------------------------------------------------------------

/// A configured monitor successfully matched to exactly one present display.
#[derive(Debug)]
pub struct Binding<'a> {
    pub monitor: &'a MonitorConfig,
    pub detected: DetectedMonitor,
    /// Non-blocking observations worth printing.
    pub notes: Vec<String>,
}

pub struct BindingView {
    pub monitor: MonitorConfigView,
    pub detected: DetectedMonitorView,
    pub notes: Seq<Seq<char>>,
}

impl<'a> DeepView for Binding<'a> {
    type V = BindingView;

    open spec fn deep_view(&self) -> BindingView {
        BindingView {
            monitor: self.monitor.deep_view(),
            detected: self.detected.deep_view(),
            notes: texts(self.notes@),
        }
    }
}

impl<'a> Binding<'a> {
    pub fn handle(&self) -> (r: MonitorHandle)
        ensures
            r.deep_view() == self.deep_view().detected.handle(),
    {
        self.detected.handle()
    }

    /// The key of the monitor that was bound.
    pub fn logical_id(&self) -> (r: &str)
        ensures
            r@ == self.deep_view().monitor.key,
    {
        self.monitor.key.as_str()
    }

    /// The key of the monitor that was bound.
    pub fn key(&self) -> (r: &str)
        ensures
            r@ == self.deep_view().monitor.key,
    {
        self.monitor.key.as_str()
    }
}

/// A reason one configured monitor could not be safely addressed.
#[derive(Debug, PartialEq, Eq)]
pub enum BindingProblem {
    NotFound { logical_id: String, looked_for: String },
    Ambiguous { logical_id: String, candidates: Vec<String> },
    PortChanged { logical_id: String, serial: String, configured: String, found: String },
    NotSwitchable { logical_id: String, transport: String },
    /// Not found by the backend, yet part of this computer's desktop.
    NotAnswering { logical_id: String },
}

pub enum BindingProblemView {
    NotFound { logical_id: Seq<char>, looked_for: Seq<char> },
    Ambiguous { logical_id: Seq<char>, candidates: Seq<Seq<char>> },
    PortChanged {
        logical_id: Seq<char>,
        serial: Seq<char>,
        configured: Seq<char>,
        found: Seq<char>,
    },
    NotSwitchable { logical_id: Seq<char>, transport: Seq<char> },
    NotAnswering { logical_id: Seq<char> },
}

impl DeepView for BindingProblem {
    type V = BindingProblemView;

    open spec fn deep_view(&self) -> BindingProblemView {
        match self {
            BindingProblem::NotFound { logical_id, looked_for } => BindingProblemView::NotFound {
                logical_id: logical_id@,
                looked_for: looked_for@,
            },
            BindingProblem::Ambiguous { logical_id, candidates } => BindingProblemView::Ambiguous {
                logical_id: logical_id@,
                candidates: texts(candidates@),
            },
            BindingProblem::PortChanged { logical_id, serial, configured, found } => {
                BindingProblemView::PortChanged {
                    logical_id: logical_id@,
                    serial: serial@,
                    configured: configured@,
                    found: found@,
                }
            },
            BindingProblem::NotSwitchable { logical_id, transport } => {
                BindingProblemView::NotSwitchable {
                    logical_id: logical_id@,
                    transport: transport@,
                }
            },
            BindingProblem::NotAnswering { logical_id } => BindingProblemView::NotAnswering {
                logical_id: logical_id@,
            },
        }
    }
}

impl Clone for BindingProblem {
    fn clone(&self) -> (r: Self)
        ensures
            r.deep_view() == self.deep_view(),
    {
        match self {
            BindingProblem::NotFound { logical_id, looked_for } => BindingProblem::NotFound {
                logical_id: logical_id.clone(),
                looked_for: looked_for.clone(),
            },
            BindingProblem::Ambiguous { logical_id, candidates } => BindingProblem::Ambiguous {
                logical_id: logical_id.clone(),
                candidates: copy_texts(candidates),
            },
            BindingProblem::PortChanged { logical_id, serial, configured, found } => {
                BindingProblem::PortChanged {
                    logical_id: logical_id.clone(),
                    serial: serial.clone(),
                    configured: configured.clone(),
                    found: found.clone(),
                }
            },
            BindingProblem::NotSwitchable { logical_id, transport } => {
                BindingProblem::NotSwitchable {
                    logical_id: logical_id.clone(),
                    transport: transport.clone(),
                }
            },
            BindingProblem::NotAnswering { logical_id } => BindingProblem::NotAnswering {
                logical_id: logical_id.clone(),
            },
        }
    }
}

impl BindingProblemView {
    pub open spec fn logical_id(self) -> Seq<char> {
        match self {
            BindingProblemView::NotFound { logical_id, .. } => logical_id,
            BindingProblemView::Ambiguous { logical_id, .. } => logical_id,
            BindingProblemView::PortChanged { logical_id, .. } => logical_id,
            BindingProblemView::NotSwitchable { logical_id, .. } => logical_id,
            BindingProblemView::NotAnswering { logical_id } => logical_id,
        }
    }

    pub open spec fn message(self) -> Seq<char> {
        match self {
            BindingProblemView::NotFound { logical_id, looked_for } => "`"@ + logical_id
                + "` is not attached: nothing present matches "@ + looked_for,
            BindingProblemView::Ambiguous { logical_id, candidates } => "`"@ + logical_id
                + "` is ambiguous: "@ + decimal(candidates.len()) + " displays match ("@ + joined(
                candidates,
                ", "@,
            ) + "). Refusing to guess."@,
            BindingProblemView::PortChanged { logical_id, serial, configured, found } => "`"@
                + logical_id + "` (serial "@ + serial + ") is now on connection `"@ + (found
                + "` but was configured on `"@ + configured
                + "`. Cabling changed, so its verified input codes may point at the wrong physical port. Re-run `desktop-switcher configure` before switching."@),
            BindingProblemView::NotSwitchable { logical_id, transport } => "`"@ + logical_id
                + "` is reachable over "@ + transport + ", which cannot carry VCP 0x60"@,
            BindingProblemView::NotAnswering { logical_id } => "`"@ + logical_id
                + "` is part of this computer's desktop but is not answering. A monitor asleep on an input with no picture ignores every command. Wake the computer on that input, or use the monitor's own buttons."@,
        }
    }

    /// The same problem, for a monitor that is known to be part of the desktop.
    pub open spec fn as_present_but_silent(self) -> Option<BindingProblemView> {
        match self {
            BindingProblemView::NotFound { logical_id, .. } => Some(
                BindingProblemView::NotAnswering { logical_id },
            ),
            _ => None,
        }
    }
}

impl BindingProblem {
    pub fn logical_id(&self) -> (r: &str)
        ensures
            r@ == self.deep_view().logical_id(),
    {
        match self {
            BindingProblem::NotFound { logical_id, .. } => logical_id.as_str(),
            BindingProblem::Ambiguous { logical_id, .. } => logical_id.as_str(),
            BindingProblem::PortChanged { logical_id, .. } => logical_id.as_str(),
            BindingProblem::NotSwitchable { logical_id, .. } => logical_id.as_str(),
            BindingProblem::NotAnswering { logical_id } => logical_id.as_str(),
        }
    }

    /// The key of the monitor this is about.
    pub fn monitor(&self) -> (r: &str)
        ensures
            r@ == self.deep_view().logical_id(),
    {
        self.logical_id()
    }

    pub fn is_not_found(&self) -> (r: bool)
        ensures
            r == self.deep_view() is NotFound,
    {
        match self {
            BindingProblem::NotFound { .. } => true,
            _ => false,
        }
    }

    /// The same problem, for a monitor that is known to be part of the desktop.
    pub fn as_present_but_silent(&self) -> (r: Option<BindingProblem>)
        ensures
            match r {
                Some(p) => self.deep_view().as_present_but_silent() == Some(p.deep_view()),
                None => self.deep_view().as_present_but_silent() is None,
            },
    {
        match self {
            BindingProblem::NotFound { logical_id, .. } => Some(
                BindingProblem::NotAnswering { logical_id: logical_id.clone() },
            ),
            _ => None,
        }
    }

    pub fn to_string(&self) -> (r: String)
        ensures
            r@ == self.deep_view().message(),
    {
        match self {
            BindingProblem::NotFound { logical_id, looked_for } => cat4(
                "`",
                logical_id.as_str(),
                "` is not attached: nothing present matches ",
                looked_for.as_str(),
            ),
            BindingProblem::Ambiguous { logical_id, candidates } => {
                let list = join(candidates.as_slice(), ", ");
                cat7(
                    "`",
                    logical_id.as_str(),
                    "` is ambiguous: ",
                    dec(candidates.len() as u64).as_str(),
                    " displays match (",
                    list.as_str(),
                    "). Refusing to guess.",
                )
            },
            BindingProblem::PortChanged { logical_id, serial, configured, found } => {
                let moved = cat4(
                    found.as_str(),
                    "` but was configured on `",
                    configured.as_str(),
                    "`. Cabling changed, so its verified input codes may point at the wrong physical port. Re-run `desktop-switcher configure` before switching.",
                );
                cat6(
                    "`",
                    logical_id.as_str(),
                    "` (serial ",
                    serial.as_str(),
                    ") is now on connection `",
                    moved.as_str(),
                )
            },
            BindingProblem::NotSwitchable { logical_id, transport } => cat5(
                "`",
                logical_id.as_str(),
                "` is reachable over ",
                transport.as_str(),
                ", which cannot carry VCP 0x60",
            ),
            BindingProblem::NotAnswering { logical_id } => cat3(
                "`",
                logical_id.as_str(),
                "` is part of this computer's desktop but is not answering. A monitor asleep on an input with no picture ignores every command. Wake the computer on that input, or use the monitor's own buttons.",
            ),
        }
    }
}

#[derive(Debug)]
pub struct BindingSet<'a> {
    pub bound: Vec<Binding<'a>>,
    pub problems: Vec<BindingProblem>,
    /// Switchable displays present on this host that no config entry claims.
    pub unclaimed: Vec<DetectedMonitor>,
}

pub struct BindingSetView {
    pub bound: Seq<BindingView>,
    pub problems: Seq<BindingProblemView>,
    pub unclaimed: Seq<DetectedMonitorView>,
}

impl<'a> DeepView for BindingSet<'a> {
    type V = BindingSetView;

    open spec fn deep_view(&self) -> BindingSetView {
        BindingSetView {
            bound: self.bound.deep_view(),
            problems: self.problems.deep_view(),
            unclaimed: self.unclaimed.deep_view(),
        }
    }
}

/// Holds of the binding of the monitor with this key.
pub open spec fn binds_key(key: Seq<char>) -> spec_fn(BindingView) -> bool {
    |b: BindingView| b.monitor.key == key
}

impl<'a> BindingSet<'a> {
    pub fn is_complete(&self) -> (r: bool)
        ensures
            r == (self.deep_view().problems.len() == 0),
    {
        self.problems.len() == 0
    }

    pub fn get(&self, logical_id: &str) -> (r: Option<&Binding<'a>>)
        ensures
            match r {
                Some(b) => first_index(self.deep_view().bound, binds_key(logical_id@)) matches Some(
                    i,
                ) && self.deep_view().bound[i] == b.deep_view(),
                None => first_index(self.deep_view().bound, binds_key(logical_id@)) is None,
            },
    {
        let ghost all = self.deep_view().bound;
        let mut i: usize = 0;
        while i < self.bound.len()
            invariant
                i <= self.bound.len(),
                all == self.deep_view().bound,
                forall|j: int| 0 <= j < i ==> !binds_key(logical_id@)(#[trigger] all[j]),
            decreases self.bound.len() - i,
        {
            if same(self.bound[i].monitor.key.as_str(), logical_id) {
                proof {
                    assert(binds_key(logical_id@)(all[i as int]));
                    lemma_first_index_here(all, binds_key(logical_id@), i as int);
                }
                return Some(&self.bound[i]);
            }
            i += 1;
        }
        proof {
            lemma_first_index_none(all, binds_key(logical_id@));
        }
        None
    }
}

// ---------------------------------------------------------------------------
// Resolving one monitor
// ---------------------------------------------------------------------------

/// Holds of the displays a configured monitor may be: those that can be
/// switched and have its serial or, where none was recorded, its connection.
pub open spec fn candidate(cfg: MonitorConfigView) -> spec_fn(DetectedMonitorView) -> bool {
    |d: DetectedMonitorView|
        d.switchable() && match cfg.serial {
            Some(sn) => d.identity.serial == Some(sn),
            None => d.identity.backend_id == cfg.backend_id,
        }
}

/// Holds of the displays with a serial, whether or not they can be switched.
pub open spec fn has_serial(sn: Seq<char>) -> spec_fn(DetectedMonitorView) -> bool {
    |d: DetectedMonitorView| d.identity.serial == Some(sn)
}

pub open spec fn connections(ds: Seq<DetectedMonitorView>) -> Seq<Seq<char>> {
    ds.map_values(|d: DetectedMonitorView| d.identity.backend_id)
}

/// The display a configured monitor is bound to, or why there is none. A
/// monitor is bound only when exactly one display is a candidate for it.
pub open spec fn resolution(cfg: MonitorConfigView, all: Seq<DetectedMonitorView>) -> Result<
    BindingView,
    BindingProblemView,
> {
    let found = all.filter(candidate(cfg));
    if found.len() > 1 {
        Err(
            BindingProblemView::Ambiguous {
                logical_id: cfg.key,
                candidates: connections(found),
            },
        )
    } else {
        match cfg.serial {
            Some(sn) => if found.len() == 1 {
                // The same panel on another connection: the cable moved.
                if found[0].identity.backend_id != cfg.backend_id {
                    Err(
                        BindingProblemView::PortChanged {
                            logical_id: cfg.key,
                            serial: sn,
                            configured: cfg.backend_id,
                            found: found[0].identity.backend_id,
                        },
                    )
                } else {
                    Ok(BindingView { monitor: cfg, detected: found[0], notes: Seq::empty() })
                }
            } else {
                match first_index(all, has_serial(sn)) {
                    Some(i) => Err(
                        BindingProblemView::NotSwitchable {
                            logical_id: cfg.key,
                            transport: all[i].identity.transport.name(),
                        },
                    ),
                    None => Err(
                        BindingProblemView::NotFound {
                            logical_id: cfg.key,
                            looked_for: "serial "@ + sn,
                        },
                    ),
                }
            },
            None => if found.len() == 1 {
                Ok(
                    BindingView {
                        monitor: cfg,
                        detected: found[0],
                        notes: seq![port_only_note(cfg.key)],
                    },
                )
            } else {
                Err(
                    BindingProblemView::NotFound {
                        logical_id: cfg.key,
                        looked_for: "connection "@ + cfg.backend_id,
                    },
                )
            },
        }
    }
}

/// What is worth saying of a monitor that has no serial.
pub open spec fn port_only_note(key: Seq<char>) -> Seq<char> {
    "`"@ + key
        + "` has no EDID serial, so it is bound by connection id alone. Swapping cables between identical panels would silently rebind it."@
}

fn is_candidate(cfg: &MonitorConfig, d: &DetectedMonitor) -> (r: bool)
    ensures
        r == candidate(cfg.deep_view())(d.deep_view()),
{
    if !d.identity.transport.supports_input_switching() {
        return false;
    }
    match &cfg.serial {
        Some(sn) => match &d.identity.serial {
            Some(have) => same(have.as_str(), sn.as_str()),
            None => false,
        },
        None => same(d.identity.backend_id.as_str(), cfg.backend_id.as_str()),
    }
}

fn candidates<'d>(cfg: &MonitorConfig, all: &'d [DetectedMonitor]) -> (r: Vec<
    &'d DetectedMonitor,
>)
    ensures
        r.deep_view() == all.deep_view().filter(candidate(cfg.deep_view())),
{
    let ghost ds = all.deep_view();
    let ghost p = candidate(cfg.deep_view());
    let mut out: Vec<&DetectedMonitor> = Vec::new();
    let mut i: usize = 0;
    proof {
        lemma_filter_take_none(ds, p);
        assert(out.deep_view() =~= ds.take(0).filter(p));
    }
    while i < all.len()
        invariant
            i <= all.len(),
            ds == all.deep_view(),
            p == candidate(cfg.deep_view()),
            out.deep_view() == ds.take(i as int).filter(p),
        decreases all.len() - i,
    {
        proof {
            lemma_filter_take(ds, p, i as int);
        }
        if is_candidate(cfg, &all[i]) {
            let ghost before = out.deep_view();
            out.push(&all[i]);
            assert(out.deep_view() =~= before.push(ds[i as int]));
        }
        i += 1;
    }
    proof {
        lemma_filter_take_none(ds, p);
    }
    out
}

fn find_serial(all: &[DetectedMonitor], sn: &str) -> (r: Option<usize>)
    ensures
        match r {
            Some(i) => i < all@.len() && first_index(all.deep_view(), has_serial(sn@)) == Some(
                i as int,
            ),
            None => first_index(all.deep_view(), has_serial(sn@)) is None,
        },
{
    let ghost ds = all.deep_view();
    let mut i: usize = 0;
    while i < all.len()
        invariant
            i <= all.len(),
            ds == all.deep_view(),
            forall|j: int| 0 <= j < i ==> !has_serial(sn@)(#[trigger] ds[j]),
        decreases all.len() - i,
    {
        let hit = match &all[i].identity.serial {
            Some(have) => same(have.as_str(), sn),
            None => false,
        };
        if hit {
            proof {
                assert(has_serial(sn@)(ds[i as int]));
                lemma_first_index_here(ds, has_serial(sn@), i as int);
            }
            return Some(i);
        }
        i += 1;
    }
    proof {
        lemma_first_index_none(ds, has_serial(sn@));
    }
    None
}

fn connection_list(found: &Vec<&DetectedMonitor>) -> (r: Vec<String>)
    ensures
        texts(r@) == connections(found.deep_view()),
{
    let mut out: Vec<String> = Vec::new();
    let ghost want = connections(found.deep_view());
    let mut i: usize = 0;
    while i < found.len()
        invariant
            i <= found.len(),
            want == connections(found.deep_view()),
            texts(out@) == want.take(i as int),
        decreases found.len() - i,
    {
        let ghost before = out@;
        out.push(found[i].identity.backend_id.clone());
        assert(texts(out@) =~= texts(before).push(want[i as int]));
        assert(want.take(i as int + 1) =~= want.take(i as int).push(want[i as int]));
        i += 1;
    }
    assert(want.take(want.len() as int) =~= want);
    out
}

/// Decides which display a configured monitor is, if that can be decided.
pub fn resolve_one<'a>(cfg: &'a MonitorConfig, all: &[DetectedMonitor]) -> (r: Result<
    Binding<'a>,
    BindingProblem,
>)
    ensures
        match r {
            Ok(b) => resolution(cfg.deep_view(), all.deep_view()) == Ok::<
                BindingView,
                BindingProblemView,
            >(b.deep_view()),
            Err(p) => resolution(cfg.deep_view(), all.deep_view()) == Err::<
                BindingView,
                BindingProblemView,
            >(p.deep_view()),
        },
{
    let found = candidates(cfg, all);
    if found.len() > 1 {
        return Err(
            BindingProblem::Ambiguous {
                logical_id: cfg.key.clone(),
                candidates: connection_list(&found),
            },
        );
    }
    match &cfg.serial {
        Some(sn) => {
            if found.len() == 1 {
                let d: &DetectedMonitor = found[0];
                assert(found.deep_view()[0] == d.deep_view());
                if !same(d.identity.backend_id.as_str(), cfg.backend_id.as_str()) {
                    return Err(
                        BindingProblem::PortChanged {
                            logical_id: cfg.key.clone(),
                            serial: sn.clone(),
                            configured: cfg.backend_id.clone(),
                            found: d.identity.backend_id.clone(),
                        },
                    );
                }
                let notes: Vec<String> = Vec::new();
                assert(texts(notes@) =~= Seq::<Seq<char>>::empty());
                Ok(Binding { monitor: cfg, detected: d.clone(), notes })
            } else {
                match find_serial(all, sn.as_str()) {
                    Some(i) => Err(
                        BindingProblem::NotSwitchable {
                            logical_id: cfg.key.clone(),
                            transport: all[i].identity.transport.to_string(),
                        },
                    ),
                    None => Err(
                        BindingProblem::NotFound {
                            logical_id: cfg.key.clone(),
                            looked_for: cat2("serial ", sn.as_str()),
                        },
                    ),
                }
            }
        },
        None => {
            if found.len() == 1 {
                let d: &DetectedMonitor = found[0];
                assert(found.deep_view()[0] == d.deep_view());
                let mut notes: Vec<String> = Vec::new();
                notes.push(
                    cat3(
                        "`",
                        cfg.key.as_str(),
                        "` has no EDID serial, so it is bound by connection id alone. Swapping cables between identical panels would silently rebind it.",
                    ),
                );
                assert(texts(notes@) =~= seq![port_only_note(cfg.key@)]);
                Ok(Binding { monitor: cfg, detected: d.clone(), notes })
            } else {
                Err(
                    BindingProblem::NotFound {
                        logical_id: cfg.key.clone(),
                        looked_for: cat2("connection ", cfg.backend_id.as_str()),
                    },
                )
            }
        },
    }
}

// ---------------------------------------------------------------------------
// Binding them all
// ---------------------------------------------------------------------------

/// The bindings of those monitors that could be bound, in order.
pub open spec fn bindings_of(
    monitors: Seq<MonitorConfigView>,
    all: Seq<DetectedMonitorView>,
) -> Seq<BindingView>
    decreases monitors.len(),
{
    if monitors.len() == 0 {
        Seq::empty()
    } else {
        let front = bindings_of(monitors.drop_last(), all);
        match resolution(monitors.last(), all) {
            Ok(b) => front.push(b),
            Err(_) => front,
        }
    }
}

/// The problems of those that could not, in order.
pub open spec fn problems_of(
    monitors: Seq<MonitorConfigView>,
    all: Seq<DetectedMonitorView>,
) -> Seq<BindingProblemView>
    decreases monitors.len(),
{
    if monitors.len() == 0 {
        Seq::empty()
    } else {
        let front = problems_of(monitors.drop_last(), all);
        match resolution(monitors.last(), all) {
            Ok(_) => front,
            Err(p) => front.push(p),
        }
    }
}

/// Holds of the switchable displays whose connection nothing is bound to.
pub open spec fn unclaimed_by(bound: Seq<BindingView>) -> spec_fn(DetectedMonitorView) -> bool {
    |d: DetectedMonitorView|
        d.switchable() && forall|i: int|
            0 <= i < bound.len() ==> (#[trigger] bound[i]).detected.identity.backend_id
                != d.identity.backend_id
}

/// What is bound, what is not, and what is left over.
pub open spec fn binding_set(
    monitors: Seq<MonitorConfigView>,
    all: Seq<DetectedMonitorView>,
) -> BindingSetView {
    let bound = bindings_of(monitors, all);
    BindingSetView {
        bound,
        problems: problems_of(monitors, all),
        unclaimed: all.filter(unclaimed_by(bound)),
    }
}

fn is_unclaimed<'a>(d: &DetectedMonitor, bound: &Vec<Binding<'a>>) -> (r: bool)
    ensures
        r == unclaimed_by(bound.deep_view())(d.deep_view()),
{
    if !d.identity.transport.supports_input_switching() {
        return false;
    }
    let ghost bs = bound.deep_view();
    let mut i: usize = 0;
    while i < bound.len()
        invariant
            i <= bound.len(),
            bs == bound.deep_view(),
            forall|j: int|
                0 <= j < i ==> (#[trigger] bs[j]).detected.identity.backend_id
                    != d.identity.backend_id@,
        decreases bound.len() - i,
    {
        if same(
            bound[i].detected.identity.backend_id.as_str(),
            d.identity.backend_id.as_str(),
        ) {
            assert(bs[i as int].detected.identity.backend_id == d.identity.backend_id@);
            return false;
        }
        i += 1;
    }
    true
}

fn left_over<'a>(all: &[DetectedMonitor], bound: &Vec<Binding<'a>>) -> (r: Vec<DetectedMonitor>)
    ensures
        r.deep_view() == all.deep_view().filter(unclaimed_by(bound.deep_view())),
{
    let ghost ds = all.deep_view();
    let ghost p = unclaimed_by(bound.deep_view());
    let mut out: Vec<DetectedMonitor> = Vec::new();
    let mut i: usize = 0;
    proof {
        lemma_filter_take_none(ds, p);
        assert(out.deep_view() =~= ds.take(0).filter(p));
    }
    while i < all.len()
        invariant
            i <= all.len(),
            ds == all.deep_view(),
            p == unclaimed_by(bound.deep_view()),
            out.deep_view() == ds.take(i as int).filter(p),
        decreases all.len() - i,
    {
        proof {
            lemma_filter_take(ds, p, i as int);
        }
        if is_unclaimed(&all[i], bound) {
            let ghost before = out.deep_view();
            out.push(all[i].clone());
            assert(out.deep_view() =~= before.push(ds[i as int]));
        }
        i += 1;
    }
    proof {
        lemma_filter_take_none(ds, p);
    }
    out
}

/// Match every configured monitor against the displays present now.
pub fn bind<'a>(config: &'a Config, detected: &[DetectedMonitor]) -> (r: BindingSet<'a>)
    ensures
        r.deep_view() == binding_set(config.deep_view().monitors, detected.deep_view()),
{
    let ghost ms = config.deep_view().monitors;
    let ghost ds = detected.deep_view();
    let mut bound: Vec<Binding<'a>> = Vec::new();
    let mut problems: Vec<BindingProblem> = Vec::new();
    let mut i: usize = 0;
    assert(ms.take(0) =~= Seq::<MonitorConfigView>::empty());
    assert(bound.deep_view() =~= bindings_of(ms.take(0), ds));
    assert(problems.deep_view() =~= problems_of(ms.take(0), ds));
    while i < config.monitors.len()
        invariant
            i <= config.monitors.len(),
            ms == config.deep_view().monitors,
            ds == detected.deep_view(),
            bound.deep_view() == bindings_of(ms.take(i as int), ds),
            problems.deep_view() == problems_of(ms.take(i as int), ds),
        decreases config.monitors.len() - i,
    {
        let ghost next = ms.take(i as int + 1);
        assert(next.drop_last() =~= ms.take(i as int));
        assert(next.last() == ms[i as int]);
        match resolve_one(&config.monitors[i], detected) {
            Ok(b) => {
                let ghost before = bound.deep_view();
                let ghost bv = b.deep_view();
                bound.push(b);
                assert(bound.deep_view() =~= before.push(bv));
            },
            Err(p) => {
                let ghost before = problems.deep_view();
                let ghost pv = p.deep_view();
                problems.push(p);
                assert(problems.deep_view() =~= before.push(pv));
            },
        }
        i += 1;
    }
    assert(ms.take(ms.len() as int) =~= ms);
    let unclaimed = left_over(detected, &bound);
    BindingSet { bound, problems, unclaimed }
}

// ---------------------------------------------------------------------------
// Duplicate serials
// ---------------------------------------------------------------------------

/// The display at `i` has a serial that none before it has and one after it
/// has too.
pub open spec fn repeats_later(ds: Seq<DetectedMonitorView>) -> spec_fn(int) -> bool {
    |i: int|
        {
            let sn = ds[i].identity.serial;
            &&& sn is Some
            &&& forall|j: int| 0 <= j < i ==> (#[trigger] ds[j]).identity.serial != sn
            &&& exists|k: int| i < k < ds.len() && (#[trigger] ds[k]).identity.serial == sn
        }
}

/// The serials that stand on more than one display, in the order in which
/// they are first met.
pub open spec fn repeated_serials(ds: Seq<DetectedMonitorView>) -> Seq<Seq<char>> {
    places(ds.len()).filter(repeats_later(ds)).map_values(|i: int| ds[i].identity.serial->0)
}

fn same_serial(a: &Option<String>, b: &Option<String>) -> (r: bool)
    ensures
        r == (crate::text::opt_text(*a) == crate::text::opt_text(*b)),
{
    match (a, b) {
        (Some(x), Some(y)) => same(x.as_str(), y.as_str()),
        (None, None) => true,
        _ => false,
    }
}

fn is_repeated_later(detected: &[DetectedMonitor], i: usize) -> (r: bool)
    requires
        i < detected.len(),
    ensures
        r == repeats_later(detected.deep_view())(i as int),
{
    let ghost ds = detected.deep_view();
    let sn = &detected[i].identity.serial;
    assert(ds[i as int].identity.serial == crate::text::opt_text(*sn));
    if sn.is_none() {
        return false;
    }
    let mut j: usize = 0;
    while j < i
        invariant
            j <= i < detected.len(),
            ds == detected.deep_view(),
            ds[i as int].identity.serial == crate::text::opt_text(*sn),
            forall|k: int| 0 <= k < j ==> (#[trigger] ds[k]).identity.serial
                != ds[i as int].identity.serial,
        decreases i - j,
    {
        if same_serial(&detected[j].identity.serial, sn) {
            assert(ds[j as int].identity.serial == ds[i as int].identity.serial);
            return false;
        }
        j += 1;
    }
    let mut k: usize = i + 1;
    while k < detected.len()
        invariant
            i < k <= detected.len(),
            ds == detected.deep_view(),
            sn is Some,
            ds[i as int].identity.serial == crate::text::opt_text(*sn),
            forall|j: int| 0 <= j < i ==> (#[trigger] ds[j]).identity.serial
                != ds[i as int].identity.serial,
            forall|j: int| i < j < k ==> (#[trigger] ds[j]).identity.serial
                != ds[i as int].identity.serial,
        decreases detected.len() - k,
    {
        if same_serial(&detected[k].identity.serial, sn) {
            assert(ds[k as int].identity.serial == ds[i as int].identity.serial);
            return true;
        }
        k += 1;
    }
    false
}

/// Serials present on more than one display.
///
/// Reported separately because it invalidates every binding that relies on
/// that serial, not just one.
pub fn duplicate_serials(detected: &[DetectedMonitor]) -> (r: Vec<String>)
    ensures
        texts(r@) == repeated_serials(detected.deep_view()),
{
    let ghost ds = detected.deep_view();
    let ghost at = places(ds.len());
    let ghost p = repeats_later(ds);
    let ghost f = |i: int| ds[i].identity.serial->0;
    let mut out: Vec<String> = Vec::new();
    let mut i: usize = 0;
    proof {
        lemma_filter_take_none(at, p);
        assert(texts(out@) =~= at.take(0).filter(p).map_values(f));
    }
    while i < detected.len()
        invariant
            i <= detected.len(),
            ds == detected.deep_view(),
            at == places(ds.len()),
            p == repeats_later(ds),
            f == (|i: int| ds[i].identity.serial->0),
            texts(out@) == at.take(i as int).filter(p).map_values(f),
        decreases detected.len() - i,
    {
        proof {
            lemma_filter_take(at, p, i as int);
            assert(at[i as int] == i);
        }
        if is_repeated_later(detected, i) {
            if let Some(sn) = &detected[i].identity.serial {
                let ghost before = out@;
                out.push(sn.clone());
                proof {
                    assert(texts(out@) =~= texts(before).push(f(i as int)));
                    assert(at.take(i as int).filter(p).push(i as int).map_values(f) =~= at.take(
                        i as int,
                    ).filter(p).map_values(f).push(f(i as int)));
                }
            }
        }
        i += 1;
    }
    proof {
        lemma_filter_take_none(at, p);
    }
    out
}

// ---------------------------------------------------------------------------
// What binding promises
// ---------------------------------------------------------------------------

/// A monitor is bound to a display only when that display is the one and only
/// candidate, can be switched, and stands on the configured connection. So a
/// built-in panel is never bound.
pub proof fn law_a_binding_names_exactly_one_display(
    cfg: MonitorConfigView,
    all: Seq<DetectedMonitorView>,
)
    requires
        resolution(cfg, all) is Ok,
    ensures
        ({
            let b = resolution(cfg, all)->Ok_0;
            &&& b.monitor == cfg
            &&& all.filter(candidate(cfg)) == seq![b.detected]
            &&& all.contains(b.detected)
            &&& b.detected.switchable()
            &&& b.detected.identity.backend_id == cfg.backend_id
            &&& cfg.serial is Some ==> b.detected.identity.serial == cfg.serial
        }),
{
    let found = all.filter(candidate(cfg));
    lemma_filter_members(all, candidate(cfg));
    assert(candidate(cfg)(found[0]));
    assert(found =~= seq![found[0]]);
}

/// The order in which displays are discovered never changes what a monitor is
/// bound to.
pub proof fn law_discovery_order_does_not_matter(
    cfg: MonitorConfigView,
    a: Seq<DetectedMonitorView>,
    b: Seq<DetectedMonitorView>,
)
    requires
        a.to_multiset() == b.to_multiset(),
        resolution(cfg, a) is Ok,
    ensures
        resolution(cfg, b) == resolution(cfg, a),
{
    let p = candidate(cfg);
    let fa = a.filter(p);
    let fb = b.filter(p);
    law_a_binding_names_exactly_one_display(cfg, a);
    lemma_filter_multiset(a, p);
    lemma_filter_multiset(b, p);
    vstd::seq_lib::to_multiset_len(fa);
    vstd::seq_lib::to_multiset_len(fb);
    assert(fb.len() == 1);
    fa.to_multiset_ensures();
    fb.to_multiset_ensures();
    assert(fa[0] == fb[0]) by {
        assert(fb.contains(fb[0]));
        assert(fb.to_multiset().count(fb[0]) > 0);
        assert(fa.contains(fb[0]));
    }
    assert(fa =~= fb);
}

/// Two displays that publish the serial of a configured monitor make it
/// ambiguous: it is refused, never guessed.
pub proof fn law_duplicate_serials_are_refused(
    cfg: MonitorConfigView,
    all: Seq<DetectedMonitorView>,
    i: int,
    j: int,
)
    requires
        cfg.serial is Some,
        0 <= i < j < all.len(),
        all[i].switchable() && all[i].identity.serial == cfg.serial,
        all[j].switchable() && all[j].identity.serial == cfg.serial,
    ensures
        resolution(cfg, all) matches Err(BindingProblemView::Ambiguous { .. }),
{
    lemma_filter_two(all, candidate(cfg), i, j);
}

/// Every configured monitor is either bound or has a problem, and every
/// problem and binding belongs to one of them.
pub proof fn law_every_monitor_is_accounted_for(
    monitors: Seq<MonitorConfigView>,
    all: Seq<DetectedMonitorView>,
)
    ensures
        bindings_of(monitors, all).len() + problems_of(monitors, all).len() == monitors.len(),
        forall|i: int|
            0 <= i < monitors.len() ==> match resolution(#[trigger] monitors[i], all) {
                Ok(b) => bindings_of(monitors, all).contains(b),
                Err(p) => problems_of(monitors, all).contains(p),
            },
    decreases monitors.len(),
{
    if monitors.len() > 0 {
        let f = monitors.drop_last();
        law_every_monitor_is_accounted_for(f, all);
        let b0 = bindings_of(f, all);
        let p0 = problems_of(f, all);
        let b1 = bindings_of(monitors, all);
        let p1 = problems_of(monitors, all);
        assert forall|i: int| 0 <= i < monitors.len() implies match resolution(
            #[trigger] monitors[i],
            all,
        ) {
            Ok(b) => b1.contains(b),
            Err(p) => p1.contains(p),
        } by {
            if i < f.len() {
                assert(f[i] == monitors[i]);
                match resolution(f[i], all) {
                    Ok(b) => {
                        let k = choose|k: int| 0 <= k < b0.len() && b0[k] == b;
                        assert(b1[k] == b);
                    },
                    Err(p) => {
                        let k = choose|k: int| 0 <= k < p0.len() && p0[k] == p;
                        assert(p1[k] == p);
                    },
                }
            } else {
                match resolution(monitors[i], all) {
                    Ok(b) => {
                        assert(b1[b1.len() - 1] == b);
                    },
                    Err(p) => {
                        assert(p1[p1.len() - 1] == p);
                    },
                }
            }
        }
    }
}

/// A display may be a configured monitor: it speaks DDC/CI and has the serial
/// that was recorded, or the connection where none was.
pub open spec fn may_be(cfg: MonitorConfigView, d: DetectedMonitorView) -> bool {
    &&& d.identity.transport is DdcCi
    &&& match cfg.serial {
        Some(serial) => d.identity.serial == Some(serial),
        None => d.identity.backend_id == cfg.backend_id,
    }
}

/// A monitor is bound to the only display that may be it, where that is on the
/// connection that was recorded; on another one, the move is told.
pub proof fn law_the_only_display_that_may_be_it_is_bound(
    cfg: MonitorConfigView,
    all: Seq<DetectedMonitorView>,
    i: int,
)
    requires
        0 <= i < all.len(),
        may_be(cfg, all[i]),
        forall|j: int| 0 <= j < all.len() && j != i ==> !may_be(cfg, #[trigger] all[j]),
    ensures
        match resolution(cfg, all) {
            Ok(b) => all[i].identity.backend_id == cfg.backend_id && b.detected == all[i]
                && b.monitor == cfg && (b.notes.len() == 0 <==> cfg.serial is Some),
            Err(BindingProblemView::PortChanged { logical_id, serial, configured, found }) => {
                &&& all[i].identity.backend_id != cfg.backend_id
                &&& logical_id == cfg.key
                &&& cfg.serial == Some(serial)
                &&& configured == cfg.backend_id
                &&& found == all[i].identity.backend_id
            },
            Err(_) => false,
        },
{
    let p = candidate(cfg);
    assert forall|j: int| 0 <= j < all.len() && j != i implies !p(#[trigger] all[j]) by {
        assert(!may_be(cfg, all[j]));
    }
    lemma_filter_one(all, p, i);
}

/// A monitor is not bound where no display may be it, nor where two may: it is
/// told as missing or as unfit to be switched, or as ambiguous with every
/// connection in question.
pub proof fn law_no_display_is_guessed(cfg: MonitorConfigView, all: Seq<DetectedMonitorView>)
    ensures
        resolution(cfg, all) is Ok ==> exists|i: int|
            0 <= i < all.len() && may_be(cfg, #[trigger] all[i]),
        (forall|i: int| 0 <= i < all.len() ==> !may_be(cfg, #[trigger] all[i])) ==> (
        if exists|k: int|
            0 <= k < all.len() && cfg.serial is Some && (#[trigger] all[k]).identity.serial
                == cfg.serial {
            resolution(cfg, all) matches Err(BindingProblemView::NotSwitchable { .. })
        } else {
            resolution(cfg, all) matches Err(BindingProblemView::NotFound { .. })
        }),
        forall|i: int, j: int|
            0 <= i < j < all.len() && may_be(cfg, #[trigger] all[i]) && may_be(
                cfg,
                #[trigger] all[j],
            ) ==> (resolution(cfg, all) matches Err(
                BindingProblemView::Ambiguous { logical_id, candidates },
            ) && logical_id == cfg.key && candidates.contains(all[i].identity.backend_id)
                && candidates.contains(all[j].identity.backend_id)),
{
    let p = candidate(cfg);
    let found = all.filter(p);
    lemma_filter_members(all, p);
    if resolution(cfg, all) is Ok {
        assert(p(found[0]) && all.contains(found[0]));
        let i = choose|i: int| 0 <= i < all.len() && all[i] == found[0];
        assert(may_be(cfg, all[i]));
    }
    if forall|i: int| 0 <= i < all.len() ==> !may_be(cfg, #[trigger] all[i]) {
        assert forall|j: int| 0 <= j < all.len() implies !p(#[trigger] all[j]) by {
            assert(!may_be(cfg, all[j]));
        }
        lemma_filter_no_one(all, p);
        if let Some(sn) = cfg.serial {
            lemma_first_index(all, has_serial(sn));
            if let Some(k) = first_index(all, has_serial(sn)) {
                assert(has_serial(sn)(all[k]));
                assert(all[k].identity.serial == cfg.serial);
            } else {
                assert forall|k: int| 0 <= k < all.len() implies (
                #[trigger] all[k]).identity.serial != cfg.serial by {
                    assert(!has_serial(sn)(all[k]));
                }
            }
        }
    }
    assert forall|i: int, j: int|
        0 <= i < j < all.len() && may_be(cfg, #[trigger] all[i]) && may_be(
            cfg,
            #[trigger] all[j],
        ) implies (resolution(cfg, all) matches Err(
        BindingProblemView::Ambiguous { logical_id, candidates },
    ) && logical_id == cfg.key && candidates.contains(all[i].identity.backend_id)
        && candidates.contains(all[j].identity.backend_id)) by {
        lemma_filter_two(all, p, i, j);
        assert(found.contains(all[i]) && found.contains(all[j]));
        let a = choose|a: int| 0 <= a < found.len() && found[a] == all[i];
        let b = choose|b: int| 0 <= b < found.len() && found[b] == all[j];
        assert(connections(found)[a] == all[i].identity.backend_id);
        assert(connections(found)[b] == all[j].identity.backend_id);
    }
}

/// A serial is told as repeated exactly where two displays have it, and each is
/// told once.
pub proof fn law_repeated_serials_are_those_of_two_displays(
    ds: Seq<DetectedMonitorView>,
    serial: Seq<char>,
)
    ensures
        repeated_serials(ds).contains(serial) <==> exists|i: int, j: int|
            0 <= i < j < ds.len() && (#[trigger] ds[i]).identity.serial == Some(serial) && (
            #[trigger] ds[j]).identity.serial == Some(serial),
{
    let p = repeats_later(ds);
    let at = places(ds.len());
    let kept = at.filter(p);
    let told = repeated_serials(ds);
    lemma_filter_members(at, p);
    if told.contains(serial) {
        let k = choose|k: int| 0 <= k < told.len() && told[k] == serial;
        let i = kept[k];
        assert(p(kept[k]) && at.contains(kept[k]));
        let j = choose|j: int|
            i < j < ds.len() && (#[trigger] ds[j]).identity.serial == ds[i].identity.serial;
        assert(ds[i].identity.serial == Some(serial) && ds[j].identity.serial == Some(serial));
    }
    if exists|i: int, j: int|
        0 <= i < j < ds.len() && (#[trigger] ds[i]).identity.serial == Some(serial) && (
        #[trigger] ds[j]).identity.serial == Some(serial) {
        let q = has_serial(serial);
        let (a, b) = choose|a: int, b: int|
            0 <= a < b < ds.len() && (#[trigger] ds[a]).identity.serial == Some(serial) && (
            #[trigger] ds[b]).identity.serial == Some(serial);
        lemma_first_index(ds, q);
        assert(q(ds[a]));
        let i = first_index(ds, q)->0;
        assert(i <= a) by {
            if a < i {
                assert(!q(ds[a]));
            }
        }
        assert(q(ds[i]));
        assert forall|j: int| 0 <= j < i implies (#[trigger] ds[j]).identity.serial
            != ds[i].identity.serial by {
            assert(!q(ds[j]));
        }
        assert(ds[b].identity.serial == ds[i].identity.serial);
        assert(p(at[i]));
        assert(kept.contains(at[i]));
        let k = choose|k: int| 0 <= k < kept.len() && kept[k] == at[i];
        assert(told[k] == serial);
    }
}

/// A display is unclaimed exactly where it speaks DDC/CI and no configured
/// monitor is bound to its connection.
pub proof fn law_a_display_is_unclaimed_when_no_monitor_has_it(
    monitors: Seq<MonitorConfigView>,
    all: Seq<DetectedMonitorView>,
    d: int,
)
    requires
        0 <= d < all.len(),
    ensures
        binding_set(monitors, all).unclaimed.contains(all[d]) <==> {
            &&& all[d].identity.transport is DdcCi
            &&& forall|i: int|
                0 <= i < monitors.len() ==> (resolution(#[trigger] monitors[i], all) matches Ok(b)
                    ==> b.detected.identity.backend_id != all[d].identity.backend_id)
        },
{
    let bound = bindings_of(monitors, all);
    let p = unclaimed_by(bound);
    lemma_filter_members(all, p);
    law_every_monitor_is_accounted_for(monitors, all);
    let unclaimed = all.filter(p);
    if unclaimed.contains(all[d]) {
        let k = choose|k: int| 0 <= k < unclaimed.len() && unclaimed[k] == all[d];
        assert(p(unclaimed[k]));
        assert forall|i: int| 0 <= i < monitors.len() implies (resolution(
            #[trigger] monitors[i],
            all,
        ) matches Ok(b) ==> b.detected.identity.backend_id != all[d].identity.backend_id) by {
            if let Ok(b) = resolution(monitors[i], all) {
                let n = choose|n: int| 0 <= n < bound.len() && bound[n] == b;
                assert(bound[n].detected.identity.backend_id != all[d].identity.backend_id);
            }
        }
    }
    if all[d].identity.transport is DdcCi && forall|i: int|
        0 <= i < monitors.len() ==> (resolution(#[trigger] monitors[i], all) matches Ok(b)
            ==> b.detected.identity.backend_id != all[d].identity.backend_id) {
        assert forall|n: int| 0 <= n < bound.len() implies (
        #[trigger] bound[n]).detected.identity.backend_id != all[d].identity.backend_id by {
            let i = lemma_binding_has_a_monitor(monitors, all, n);
            assert(resolution(monitors[i], all) == Ok::<BindingView, BindingProblemView>(bound[n]));
        }
        assert(p(all[d]));
    }
}

proof fn lemma_binding_has_a_monitor(
    monitors: Seq<MonitorConfigView>,
    all: Seq<DetectedMonitorView>,
    n: int,
) -> (i: int)
    requires
        0 <= n < bindings_of(monitors, all).len(),
    ensures
        0 <= i < monitors.len(),
        resolution(monitors[i], all) == Ok::<BindingView, BindingProblemView>(
            bindings_of(monitors, all)[n],
        ),
    decreases monitors.len(),
{
    let front = monitors.drop_last();
    let before = bindings_of(front, all);
    if n < before.len() {
        let i = lemma_binding_has_a_monitor(front, all, n);
        assert(front[i] == monitors[i]);
        i
    } else {
        monitors.len() - 1
    }
}

/// Every problem names its monitor, and what is in the way: the connections in
/// question, or the one that was recorded and the one that was found.
pub proof fn law_a_problem_names_what_is_in_the_way(p: BindingProblemView)
    ensures
        has_text(p.message(), p.logical_id()),
        p matches BindingProblemView::PortChanged { configured, found, serial, .. } ==> has_text(
            p.message(),
            configured,
        ) && has_text(p.message(), found) && has_text(p.message(), serial),
        p matches BindingProblemView::NotFound { looked_for, .. } ==> has_text(
            p.message(),
            looked_for,
        ),
{
    let id = p.logical_id();
    let m = p.message();
    match p {
        BindingProblemView::PortChanged { logical_id, serial, configured, found } => {
            let end =
                "`. Cabling changed, so its verified input codes may point at the wrong physical port. Re-run `desktop-switcher configure` before switching."@;
            let where_from = found + "` but was configured on `"@ + configured + end;
            let rest = "` (serial "@ + serial + ") is now on connection `"@ + where_from;
            lemma_has_text_between("`"@, id, rest);
            assert("`"@ + id + rest =~= m);
            let a = "`"@ + id + "` (serial "@;
            lemma_has_text_between(a, serial, ") is now on connection `"@ + where_from);
            assert(a + serial + (") is now on connection `"@ + where_from) =~= m);
            let b = a + serial + ") is now on connection `"@;
            lemma_has_text_between(b, found, "` but was configured on `"@ + configured + end);
            assert(b + found + ("` but was configured on `"@ + configured + end) =~= m);
            lemma_has_text_between(b + found + "` but was configured on `"@, configured, end);
            assert(b + found + "` but was configured on `"@ + configured + end =~= m);
        },
        _ => {
            let n = 1 + id.len() as int;
            lemma_has_text_between("`"@, id, m.skip("`"@.len() as int + id.len()));
            assert("`"@ + id + m.skip("`"@.len() as int + id.len()) =~= m);
            if let BindingProblemView::NotFound { looked_for, .. } = p {
                lemma_has_text_between(
                    "`"@ + id + "` is not attached: nothing present matches "@,
                    looked_for,
                    Seq::empty(),
                );
            }
        },
    }
}

/// A binding is found by the key of its own monitor, and by no other.
pub proof fn law_a_binding_is_found_by_its_key(
    bound: Seq<BindingView>,
    key: Seq<char>,
    i: int,
)
    requires
        0 <= i < bound.len(),
        bound[i].monitor.key == key,
        forall|j: int| 0 <= j < i ==> (#[trigger] bound[j]).monitor.key != key,
    ensures
        first_index(bound, binds_key(key)) == Some(i),
        forall|other: Seq<char>|
            (forall|j: int| 0 <= j < bound.len() ==> (#[trigger] bound[j]).monitor.key != other)
                ==> first_index(bound, #[trigger] binds_key(other)) is None,
{
    let p = binds_key(key);
    assert forall|j: int| 0 <= j < i implies !p(#[trigger] bound[j]) by {}
    lemma_first_index_here(bound, p, i);
    assert forall|other: Seq<char>|
        (forall|j: int| 0 <= j < bound.len() ==> (#[trigger] bound[j]).monitor.key
            != other) implies first_index(bound, #[trigger] binds_key(other)) is None by {
        let q = binds_key(other);
        assert forall|j: int| 0 <= j < bound.len() implies !q(#[trigger] bound[j]) by {}
        lemma_first_index_none(bound, q);
    }
}

} // verus!

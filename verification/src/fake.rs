//! An in-memory backend, so every domain rule can be exercised — including
//! the failure modes that are unsafe or impossible to stage on real hardware.

use vstd::prelude::*;

use crate::backend::{
    capabilities_result, monitors_result, reading_answer, write_answer, BackendError,
    BackendErrorView, BackendHealth, BackendHealthView, Exchange, HealthFinding, HealthFindingView,
    MonitorBackend,
};
use crate::seqs::{
    first_index, lemma_filter_take, lemma_filter_take_none, lemma_first_index_here,
    lemma_first_index_none,
};
use crate::text::{cat2, copy_texts, same, texts};
use crate::types::{
    DetectedMonitor, DetectedMonitorView, InputCapabilities, InputCapabilitiesView, InputCode,
    InputReading, InputReadingView, InputSourceOption, InputSourceOptionView, MonitorHandle,
    MonitorIdentity, MonitorIdentityView, Transport, TransportView, WriteOutcome, WriteOutcomeView,
};

verus! {

// ---------------------------------------------------------------------------
// Monitors
// ---------------------------------------------------------------------------

/// How a fake monitor misbehaves.
#[derive(Debug, PartialEq, Eq)]
pub enum FakeBehavior {
    Normal,
    /// Accepts the write, then stops answering — what really happens when a
    /// monitor is switched to another computer.
    SilentAfterWrite,
    /// The write command itself reports failure.
    WriteFails(String),
    /// Reads fail even though the link is believed up.
    ReadFails(String),
    /// Monitor does not implement feature 0x60.
    NoInputFeature,
    /// Accepts the write but never actually changes input.
    IgnoresWrites,
}

pub enum FakeBehaviorView {
    Normal,
    SilentAfterWrite,
    WriteFails(Seq<char>),
    ReadFails(Seq<char>),
    NoInputFeature,
    IgnoresWrites,
}

impl DeepView for FakeBehavior {
    type V = FakeBehaviorView;

    open spec fn deep_view(&self) -> FakeBehaviorView {
        match self {
            FakeBehavior::Normal => FakeBehaviorView::Normal,
            FakeBehavior::SilentAfterWrite => FakeBehaviorView::SilentAfterWrite,
            FakeBehavior::WriteFails(d) => FakeBehaviorView::WriteFails(d@),
            FakeBehavior::ReadFails(d) => FakeBehaviorView::ReadFails(d@),
            FakeBehavior::NoInputFeature => FakeBehaviorView::NoInputFeature,
            FakeBehavior::IgnoresWrites => FakeBehaviorView::IgnoresWrites,
        }
    }
}

impl Default for FakeBehavior {
    fn default() -> (r: Self)
        ensures
            r.deep_view() == FakeBehaviorView::Normal,
    {
        FakeBehavior::Normal
    }
}

impl Clone for FakeBehavior {
    fn clone(&self) -> (r: Self)
        ensures
            r == *self,
    {
        match self {
            FakeBehavior::Normal => FakeBehavior::Normal,
            FakeBehavior::SilentAfterWrite => FakeBehavior::SilentAfterWrite,
            FakeBehavior::WriteFails(d) => FakeBehavior::WriteFails(d.clone()),
            FakeBehavior::ReadFails(d) => FakeBehavior::ReadFails(d.clone()),
            FakeBehavior::NoInputFeature => FakeBehavior::NoInputFeature,
            FakeBehavior::IgnoresWrites => FakeBehavior::IgnoresWrites,
        }
    }
}

#[derive(Debug)]
pub struct FakeMonitor {
    pub identity: MonitorIdentity,
    pub current: Option<InputCode>,
    pub advertised: Vec<InputCode>,
    pub behavior: FakeBehavior,
    /// Set once this monitor has been written to and gone quiet.
    pub silent: bool,
    /// An input this monitor claims regardless of the one it is really on.
    ///
    /// Real panels do this: one physically showing HDMI answered reads with
    /// DisplayPort while another computer was driving it.
    pub misreports: Option<InputCode>,
}

pub struct FakeMonitorView {
    pub identity: MonitorIdentityView,
    pub current: Option<InputCode>,
    pub advertised: Seq<InputCode>,
    pub behavior: FakeBehaviorView,
    pub silent: bool,
    pub misreports: Option<InputCode>,
}

impl DeepView for FakeMonitor {
    type V = FakeMonitorView;

    open spec fn deep_view(&self) -> FakeMonitorView {
        FakeMonitorView {
            identity: self.identity.deep_view(),
            current: self.current,
            advertised: self.advertised@,
            behavior: self.behavior.deep_view(),
            silent: self.silent,
            misreports: self.misreports,
        }
    }
}

impl Clone for FakeMonitor {
    fn clone(&self) -> (r: Self)
        ensures
            r.deep_view() == self.deep_view(),
    {
        let advertised = self.advertised.clone();
        assert(advertised@ =~= self.advertised@);
        FakeMonitor {
            identity: self.identity.clone(),
            current: self.current,
            advertised,
            behavior: self.behavior.clone(),
            silent: self.silent,
            misreports: self.misreports,
        }
    }
}

impl FakeMonitorView {
    /// A monitor that behaves, on one input.
    pub open spec fn new(backend_id: Seq<char>, serial: Option<Seq<char>>, current: u8) -> Self {
        FakeMonitorView {
            identity: MonitorIdentityView {
                backend_id,
                discovery_index: None,
                manufacturer: Some("AOC"@),
                model: Some("27P2DG5"@),
                serial,
                transport: TransportView::DdcCi,
            },
            current: Some(InputCode(current)),
            advertised: seq![InputCode(0x01), InputCode(0x03), InputCode(0x11), InputCode(0x0F)],
            behavior: FakeBehaviorView::Normal,
            silent: false,
            misreports: None,
        }
    }

    /// The panel of a laptop.
    pub open spec fn internal_panel(backend_id: Seq<char>) -> Self {
        FakeMonitorView {
            identity: MonitorIdentityView {
                backend_id,
                discovery_index: None,
                manufacturer: Some("BOE"@),
                model: Some("NE16NZH"@),
                serial: Some("PANEL"@),
                transport: TransportView::Internal,
            },
            current: None,
            advertised: Seq::empty(),
            behavior: FakeBehaviorView::Normal,
            silent: false,
            misreports: None,
        }
    }

    /// Whether it says that it has feature 0x60.
    pub open spec fn has_inputs(self) -> bool {
        self.behavior !is NoInputFeature && self.advertised.len() > 0
    }

    /// What it answers when it is read.
    pub open spec fn answer(self) -> InputReadingView {
        if self.behavior is NoInputFeature {
            InputReadingView::Unsupported
        } else if self.silent {
            InputReadingView::UnavailableAfterSwitch {
                detail: "monitor stopped answering after switching away"@,
            }
        } else {
            match self.behavior {
                FakeBehaviorView::ReadFails(detail) => InputReadingView::ReadFailed { detail },
                _ => match self.misreports {
                    Some(claimed) => InputReadingView::Value(claimed),
                    None => match self.current {
                        Some(c) => InputReadingView::Value(c),
                        None => InputReadingView::Unsupported,
                    },
                },
            }
        }
    }

    /// What a write of `value` makes of it.
    pub open spec fn written(self, value: InputCode) -> Self {
        match self.behavior {
            FakeBehaviorView::SilentAfterWrite => FakeMonitorView {
                current: Some(value),
                silent: true,
                ..self
            },
            FakeBehaviorView::Normal | FakeBehaviorView::ReadFails(_) => FakeMonitorView {
                current: Some(value),
                ..self
            },
            _ => self,
        }
    }

    /// What a write is answered with.
    pub open spec fn write_answer(self) -> Result<WriteOutcomeView, BackendErrorView> {
        match self.behavior {
            FakeBehaviorView::NoInputFeature => Err(
                BackendErrorView::Unsupported { detail: "monitor does not implement VCP 0x60"@ },
            ),
            FakeBehaviorView::WriteFails(detail) => Ok(WriteOutcomeView::Failed { detail }),
            _ => Ok(WriteOutcomeView::Accepted),
        }
    }
}

impl FakeMonitor {
    pub fn new(backend_id: &str, serial: Option<&str>, current: u8) -> (r: Self)
        ensures
            r.deep_view() == FakeMonitorView::new(
                backend_id@,
                crate::types::opt_str(serial),
                current,
            ),
    {
        let serial = match serial {
            Some(s) => Some(s.to_owned()),
            None => None,
        };
        let mut advertised: Vec<InputCode> = Vec::new();
        advertised.push(InputCode(0x01));
        advertised.push(InputCode(0x03));
        advertised.push(InputCode(0x11));
        advertised.push(InputCode(0x0F));
        assert(advertised@ =~= seq![
            InputCode(0x01),
            InputCode(0x03),
            InputCode(0x11),
            InputCode(0x0F),
        ]);
        FakeMonitor {
            identity: MonitorIdentity {
                backend_id: backend_id.to_owned(),
                discovery_index: None,
                manufacturer: Some("AOC".to_owned()),
                model: Some("27P2DG5".to_owned()),
                serial,
                transport: Transport::DdcCi,
            },
            current: Some(InputCode(current)),
            advertised,
            behavior: FakeBehavior::Normal,
            silent: false,
            misreports: None,
        }
    }

    pub fn internal_panel(backend_id: &str) -> (r: Self)
        ensures
            r.deep_view() == FakeMonitorView::internal_panel(backend_id@),
    {
        let advertised: Vec<InputCode> = Vec::new();
        assert(advertised@ =~= Seq::<InputCode>::empty());
        FakeMonitor {
            identity: MonitorIdentity {
                backend_id: backend_id.to_owned(),
                discovery_index: None,
                manufacturer: Some("BOE".to_owned()),
                model: Some("NE16NZH".to_owned()),
                serial: Some("PANEL".to_owned()),
                transport: Transport::Internal,
            },
            current: None,
            advertised,
            behavior: FakeBehavior::Normal,
            silent: false,
            misreports: None,
        }
    }

    pub fn with_behavior(self, behavior: FakeBehavior) -> (r: Self)
        ensures
            r.deep_view() == (FakeMonitorView {
                behavior: behavior.deep_view(),
                ..self.deep_view()
            }),
    {
        let mut m = self;
        m.behavior = behavior;
        m
    }

    /// Make reads answer with `code` whatever the monitor is actually on.
    pub fn reporting_input(self, code: InputCode) -> (r: Self)
        ensures
            r.deep_view() == (FakeMonitorView { misreports: Some(code), ..self.deep_view() }),
    {
        let mut m = self;
        m.misreports = Some(code);
        m
    }

    pub fn with_index(self, index: u32) -> (r: Self)
        ensures
            r.deep_view() == (FakeMonitorView {
                identity: MonitorIdentityView {
                    discovery_index: Some(index),
                    ..self.deep_view().identity
                },
                ..self.deep_view()
            }),
    {
        let mut m = self;
        m.identity.discovery_index = Some(index);
        m
    }
}

// ---------------------------------------------------------------------------
// The backend
// ---------------------------------------------------------------------------

pub struct FakeBackend {
    attached: Vec<FakeMonitor>,
    written: Vec<(String, InputCode)>,
    read: Vec<String>,
    discover_error: Option<BackendError>,
    exchanged: Ghost<Seq<Exchange>>,
}

pub open spec fn writes_view(writes: Seq<(String, InputCode)>) -> Seq<(Seq<char>, InputCode)> {
    writes.map_values(|w: (String, InputCode)| (w.0@, w.1))
}

/// Holds of the monitor on a connection.
pub open spec fn on_connection(id: Seq<char>) -> spec_fn(FakeMonitorView) -> bool {
    |m: FakeMonitorView| m.identity.backend_id == id
}

/// Holds of the monitors on other connections.
pub open spec fn elsewhere(id: Seq<char>) -> spec_fn(FakeMonitorView) -> bool {
    |m: FakeMonitorView| m.identity.backend_id != id
}

/// How a fake monitor is discovered.
pub open spec fn discovered(m: FakeMonitorView) -> DetectedMonitorView {
    DetectedMonitorView { identity: m.identity, raw: "fake://"@ + m.identity.backend_id }
}

pub open spec fn no_such_monitor(id: Seq<char>) -> BackendErrorView {
    BackendErrorView::MonitorNotFound { detail: "no fake monitor with id "@ + id }
}

pub open spec fn standard_options(codes: Seq<InputCode>) -> Seq<InputSourceOptionView> {
    codes.map_values(|c: InputCode| InputSourceOptionView::standard(c))
}

impl FakeBackend {
    /// The monitors that are attached.
    pub closed spec fn monitors(&self) -> Seq<FakeMonitorView> {
        self.attached.deep_view()
    }

    /// The connections that were read, oldest first.
    pub closed spec fn was_read(&self) -> Seq<Seq<char>> {
        texts(self.read@)
    }

    /// Why nothing can be discovered, if nothing can.
    pub closed spec fn broken(&self) -> Option<BackendErrorView> {
        match self.discover_error {
            Some(e) => Some(e.deep_view()),
            None => None,
        }
    }

    /// The place of the monitor on a connection.
    pub open spec fn place(&self, id: Seq<char>) -> Option<int> {
        first_index(self.monitors(), on_connection(id))
    }

    pub fn new(monitors: Vec<FakeMonitor>) -> (r: Self)
        ensures
            r.monitors() == monitors.deep_view(),
            r.sent() == Seq::<(Seq<char>, InputCode)>::empty(),
            r.heard() == Seq::<Exchange>::empty(),
            r.was_read() == Seq::<Seq<char>>::empty(),
            r.broken() is None,
    {
        let r = FakeBackend {
            attached: monitors,
            written: Vec::new(),
            read: Vec::new(),
            discover_error: None,
            exchanged: Ghost(Seq::empty()),
        };
        assert(r.sent() =~= Seq::<(Seq<char>, InputCode)>::empty());
        assert(r.was_read() =~= Seq::<Seq<char>>::empty());
        r
    }

    pub fn failing_discovery(error: BackendError) -> (r: Self)
        ensures
            r.monitors() == Seq::<FakeMonitorView>::empty(),
            r.sent() == Seq::<(Seq<char>, InputCode)>::empty(),
            r.heard() == Seq::<Exchange>::empty(),
            r.was_read() == Seq::<Seq<char>>::empty(),
            r.broken() == Some(error.deep_view()),
    {
        let r = FakeBackend {
            attached: Vec::new(),
            written: Vec::new(),
            read: Vec::new(),
            discover_error: Some(error),
            exchanged: Ghost(Seq::empty()),
        };
        assert(r.monitors() =~= Seq::<FakeMonitorView>::empty());
        assert(r.sent() =~= Seq::<(Seq<char>, InputCode)>::empty());
        assert(r.was_read() =~= Seq::<Seq<char>>::empty());
        r
    }

    /// Every write issued, in order. Used to assert that read-only commands
    /// never write, and that a switch touches each monitor exactly once.
    pub fn writes(&self) -> (r: Vec<(String, InputCode)>)
        ensures
            writes_view(r@) == self.sent(),
    {
        let mut out: Vec<(String, InputCode)> = Vec::new();
        let mut i: usize = 0;
        let ghost want = self.sent();
        while i < self.written.len()
            invariant
                i <= self.written.len(),
                want == writes_view(self.written@),
                writes_view(out@) == want.take(i as int),
            decreases self.written.len() - i,
        {
            let ghost before = out@;
            out.push((self.written[i].0.clone(), self.written[i].1));
            assert(writes_view(out@) =~= writes_view(before).push(want[i as int]));
            assert(want.take(i as int + 1) =~= want.take(i as int).push(want[i as int]));
            i += 1;
        }
        assert(want.take(want.len() as int) =~= want);
        out
    }

    pub fn reads(&self) -> (r: Vec<String>)
        ensures
            texts(r@) == self.was_read(),
    {
        copy_texts(&self.read)
    }

    /// The place of the first monitor on a connection.
    fn find(&self, id: &str) -> (r: Option<usize>)
        ensures
            match r {
                Some(i) => i < self.attached@.len() && self.place(id@) == Some(i as int)
                    && self.monitors()[i as int].identity.backend_id == id@,
                None => self.place(id@) is None,
            },
    {
        let ghost ms = self.monitors();
        let mut i: usize = 0;
        while i < self.attached.len()
            invariant
                i <= self.attached.len(),
                ms == self.monitors(),
                forall|j: int| 0 <= j < i ==> !on_connection(id@)(#[trigger] ms[j]),
            decreases self.attached.len() - i,
        {
            if same(self.attached[i].identity.backend_id.as_str(), id) {
                proof {
                    assert(on_connection(id@)(ms[i as int]));
                    lemma_first_index_here(ms, on_connection(id@), i as int);
                }
                return Some(i);
            }
            i += 1;
        }
        proof {
            lemma_first_index_none(ms, on_connection(id@));
        }
        None
    }

    /// The input a monitor is really on.
    pub fn current_input(&self, backend_id: &str) -> (r: Option<InputCode>)
        ensures
            r == (match self.place(backend_id@) {
                Some(i) => self.monitors()[i].current,
                None => None,
            }),
    {
        match self.find(backend_id) {
            Some(i) => self.attached[i].current,
            None => None,
        }
    }

    /// Simulate the user changing input with the monitor's own buttons.
    pub fn set_physically(&mut self, backend_id: &str, code: u8)
        ensures
            final(self).monitors() == (match old(self).place(backend_id@) {
                Some(i) => old(self).monitors().update(
                    i,
                    (FakeMonitorView {
                        current: Some(InputCode(code)),
                        silent: false,
                        ..old(self).monitors()[i]
                    }),
                ),
                None => old(self).monitors(),
            }),
            final(self).sent() == old(self).sent(),
            final(self).heard() == old(self).heard(),
            final(self).was_read() == old(self).was_read(),
            final(self).broken() == old(self).broken(),
    {
        match self.find(backend_id) {
            Some(i) => {
                let mut m = self.attached[i].clone();
                m.current = Some(InputCode(code));
                m.silent = false;
                let ghost want = old(self).monitors().update(i as int, m.deep_view());
                self.attached.set(i, m);
                assert(self.monitors() =~= want);
            },
            None => {},
        }
    }

    /// Simulate unplugging a display.
    pub fn detach(&mut self, backend_id: &str)
        ensures
            final(self).monitors() == old(self).monitors().filter(elsewhere(backend_id@)),
            final(self).sent() == old(self).sent(),
            final(self).heard() == old(self).heard(),
            final(self).was_read() == old(self).was_read(),
            final(self).broken() == old(self).broken(),
    {
        let ghost ms = self.monitors();
        let ghost p = elsewhere(backend_id@);
        let mut kept: Vec<FakeMonitor> = Vec::new();
        let mut i: usize = 0;
        proof {
            lemma_filter_take_none(ms, p);
            assert(kept.deep_view() =~= ms.take(0).filter(p));
        }
        while i < self.attached.len()
            invariant
                i <= self.attached.len(),
                *self == *old(self),
                ms == self.monitors(),
                p == elsewhere(backend_id@),
                kept.deep_view() == ms.take(i as int).filter(p),
            decreases self.attached.len() - i,
        {
            proof {
                lemma_filter_take(ms, p, i as int);
            }
            if !same(self.attached[i].identity.backend_id.as_str(), backend_id) {
                let ghost before = kept.deep_view();
                kept.push(self.attached[i].clone());
                assert(kept.deep_view() =~= before.push(ms[i as int]));
            }
            i += 1;
        }
        proof {
            lemma_filter_take_none(ms, p);
        }
        self.attached = kept;
    }
}

fn missing(handle: &MonitorHandle) -> (r: BackendError)
    ensures
        r.deep_view() == no_such_monitor(handle.backend_id@),
{
    BackendError::MonitorNotFound {
        detail: cat2("no fake monitor with id ", handle.backend_id.as_str()),
    }
}

fn options_for(codes: &Vec<InputCode>) -> (r: Vec<InputSourceOption>)
    ensures
        r.deep_view() == standard_options(codes@),
{
    let ghost want = standard_options(codes@);
    let mut out: Vec<InputSourceOption> = Vec::new();
    let mut i: usize = 0;
    assert(out.deep_view() =~= want.take(0));
    while i < codes.len()
        invariant
            i <= codes.len(),
            want == standard_options(codes@),
            out.deep_view() == want.take(i as int),
        decreases codes.len() - i,
    {
        let ghost before = out.deep_view();
        out.push(InputSourceOption::standard(codes[i]));
        assert(out.deep_view() =~= before.push(want[i as int]));
        assert(want.take(i as int + 1) =~= want.take(i as int).push(want[i as int]));
        i += 1;
    }
    assert(want.take(want.len() as int) =~= want);
    out
}

impl FakeBackend {
    fn listed(&self) -> (r: Result<Vec<DetectedMonitor>, BackendError>)
        ensures
            match r {
                Ok(v) => self.broken() is None && v.deep_view()
                    == self.monitors().map_values(|m: FakeMonitorView| discovered(m)),
                Err(e) => self.broken() == Some(e.deep_view()),
            },
    {
        if let Some(e) = &self.discover_error {
            return Err(e.clone());
        }
        let ghost want = self.monitors().map_values(|m: FakeMonitorView| discovered(m));
        let mut out: Vec<DetectedMonitor> = Vec::new();
        let mut i: usize = 0;
        assert(out.deep_view() =~= want.take(0));
        while i < self.attached.len()
            invariant
                i <= self.attached.len(),
                want == self.monitors().map_values(|m: FakeMonitorView| discovered(m)),
                out.deep_view() == want.take(i as int),
            decreases self.attached.len() - i,
        {
            let ghost before = out.deep_view();
            let m = &self.attached[i];
            out.push(
                DetectedMonitor {
                    identity: m.identity.clone(),
                    raw: cat2("fake://", m.identity.backend_id.as_str()),
                },
            );
            assert(out.deep_view() =~= before.push(want[i as int]));
            assert(want.take(i as int + 1) =~= want.take(i as int).push(want[i as int]));
            i += 1;
        }
        assert(want.take(want.len() as int) =~= want);
        Ok(out)
    }

    fn claimed_inputs(&self, handle: &MonitorHandle) -> (r: Result<
        InputCapabilities,
        BackendError,
    >)
        ensures
            match r {
                Ok(c) => self.place(handle.backend_id@) matches Some(i) && c.deep_view() == ({
                    let m = self.monitors()[i];
                    InputCapabilitiesView {
                        feature_present: m.has_inputs(),
                        options: if m.has_inputs() {
                            standard_options(m.advertised)
                        } else {
                            Seq::empty()
                        },
                        raw_capabilities: if m.has_inputs() {
                            Some("(vcp(60(01 03 11 0F)))"@)
                        } else {
                            None
                        },
                        raw_output: "fake capabilities for "@ + handle.backend_id@,
                    }
                }),
                Err(e) => self.place(handle.backend_id@) is None && e.deep_view()
                    == no_such_monitor(handle.backend_id@),
            },
    {
        let i: usize = match self.find(handle.backend_id.as_str()) {
            Some(i) => i,
            None => {
                return Err(missing(handle));
            },
        };
        let m = &self.attached[i];
        let without = match &m.behavior {
            FakeBehavior::NoInputFeature => true,
            _ => false,
        };
        let present = !without && m.advertised.len() > 0;
        let options = if present {
            options_for(&m.advertised)
        } else {
            let none: Vec<InputSourceOption> = Vec::new();
            assert(none.deep_view() =~= Seq::<InputSourceOptionView>::empty());
            none
        };
        Ok(
            InputCapabilities {
                feature_present: present,
                options,
                raw_capabilities: if present {
                    Some("(vcp(60(01 03 11 0F)))".to_owned())
                } else {
                    None
                },
                raw_output: cat2("fake capabilities for ", handle.backend_id.as_str()),
            },
        )
    }

    fn answer_read(&mut self, handle: &MonitorHandle) -> (r: Result<InputReading, BackendError>)
        ensures
            final(self).monitors() == old(self).monitors(),
            final(self).broken() == old(self).broken(),
            final(self).sent() == old(self).sent(),
            final(self).heard() == old(self).heard(),
            match r {
                Ok(reading) => old(self).place(handle.backend_id@) matches Some(i)
                    && reading.deep_view() == old(self).monitors()[i].answer()
                    && final(self).was_read() == old(self).was_read().push(handle.backend_id@),
                Err(e) => old(self).place(handle.backend_id@) is None && e.deep_view()
                    == no_such_monitor(handle.backend_id@) && final(self).was_read()
                    == old(self).was_read(),
            },
    {
        let i: usize = match self.find(handle.backend_id.as_str()) {
            Some(i) => i,
            None => {
                return Err(missing(handle));
            },
        };
        let ghost before = self.read@;
        self.read.push(handle.backend_id.clone());
        assert(texts(self.read@) =~= texts(before).push(handle.backend_id@));
        let m = &self.attached[i];
        let answer = match &m.behavior {
            FakeBehavior::NoInputFeature => InputReading::Unsupported,
            behavior => if m.silent {
                InputReading::UnavailableAfterSwitch {
                    detail: "monitor stopped answering after switching away".to_owned(),
                }
            } else {
                match behavior {
                    FakeBehavior::ReadFails(detail) => InputReading::ReadFailed {
                        detail: detail.clone(),
                    },
                    _ => match m.misreports {
                        Some(claimed) => InputReading::Value(claimed),
                        None => match m.current {
                            Some(c) => InputReading::Value(c),
                            None => InputReading::Unsupported,
                        },
                    },
                }
            },
        };
        Ok(answer)
    }

    fn take_write(&mut self, handle: &MonitorHandle, value: InputCode) -> (r: Result<
        WriteOutcome,
        BackendError,
    >)
        ensures
            final(self).was_read() == old(self).was_read(),
            final(self).broken() == old(self).broken(),
            final(self).heard() == old(self).heard(),
            match old(self).place(handle.backend_id@) {
                Some(i) => {
                    &&& final(self).sent() == old(self).sent().push((handle.backend_id@, value))
                    &&& final(self).monitors() == old(self).monitors().update(
                        i,
                        old(self).monitors()[i].written(value),
                    )
                    &&& match r {
                        Ok(o) => old(self).monitors()[i].write_answer() == Ok::<
                            WriteOutcomeView,
                            BackendErrorView,
                        >(o.deep_view()),
                        Err(e) => old(self).monitors()[i].write_answer() == Err::<
                            WriteOutcomeView,
                            BackendErrorView,
                        >(e.deep_view()),
                    }
                },
                None => {
                    &&& final(self).sent() == old(self).sent()
                    &&& final(self).monitors() == old(self).monitors()
                    &&& r matches Err(e) && e.deep_view() == no_such_monitor(handle.backend_id@)
                },
            },
    {
        let i: usize = match self.find(handle.backend_id.as_str()) {
            Some(i) => i,
            None => {
                return Err(missing(handle));
            },
        };
        let ghost before = self.written@;
        self.written.push((handle.backend_id.clone(), value));
        assert(writes_view(self.written@) =~= writes_view(before).push((handle.backend_id@, value)));
        let mut m = self.attached[i].clone();
        let r = match &self.attached[i].behavior {
            FakeBehavior::NoInputFeature => Err(
                BackendError::Unsupported {
                    detail: "monitor does not implement VCP 0x60".to_owned(),
                },
            ),
            FakeBehavior::WriteFails(detail) => Ok(WriteOutcome::Failed { detail: detail.clone() }),
            FakeBehavior::IgnoresWrites => Ok(WriteOutcome::Accepted),
            FakeBehavior::SilentAfterWrite => {
                m.current = Some(value);
                m.silent = true;
                Ok(WriteOutcome::Accepted)
            },
            // Reads are broken but writes are not: the switch lands, and
            // nothing can confirm it.
            FakeBehavior::Normal | FakeBehavior::ReadFails(_) => {
                m.current = Some(value);
                Ok(WriteOutcome::Accepted)
            },
        };
        let ghost want = old(self).monitors().update(
            i as int,
            old(self).monitors()[i as int].written(value),
        );
        self.attached.set(i, m);
        assert(self.monitors() =~= want);
        r
    }
}

impl MonitorBackend for FakeBackend {
    closed spec fn sent(&self) -> Seq<(Seq<char>, InputCode)> {
        writes_view(self.written@)
    }

    closed spec fn heard(&self) -> Seq<Exchange> {
        self.exchanged@
    }

    fn name(&self) -> (r: &str)
        ensures
            r@ == "fake"@,
    {
        "fake"
    }

    fn health(&mut self) -> (r: BackendHealth)
        ensures
            final(self).monitors() == old(self).monitors(),
            final(self).was_read() == old(self).was_read(),
            final(self).broken() == old(self).broken(),
            r.deep_view() == (BackendHealthView {
                backend: "fake"@,
                tool_path: None,
                tool_version: Some("in-memory"@),
                findings: seq![
                    HealthFindingView::info(
                        "Fake backend: no hardware is touched by any command."@,
                    ),
                ],
            }),
    {
        let mut findings: Vec<HealthFinding> = Vec::new();
        findings.push(HealthFinding::info("Fake backend: no hardware is touched by any command."));
        assert(findings.deep_view() =~= seq![
            HealthFindingView::info("Fake backend: no hardware is touched by any command."@),
        ]);
        let r = BackendHealth {
            backend: "fake".to_owned(),
            tool_path: None,
            tool_version: Some("in-memory".to_owned()),
            findings,
        };
        self.exchanged = Ghost(self.exchanged@.push(Exchange::Checked(r.deep_view())));
        r
    }

    fn discover(&mut self) -> (r: Result<Vec<DetectedMonitor>, BackendError>)
        ensures
            final(self).monitors() == old(self).monitors(),
            final(self).was_read() == old(self).was_read(),
            final(self).broken() == old(self).broken(),
            match r {
                Ok(v) => old(self).broken() is None && v.deep_view()
                    == old(self).monitors().map_values(|m: FakeMonitorView| discovered(m)),
                Err(e) => old(self).broken() == Some(e.deep_view()),
            },
    {
        let r = self.listed();
        self.exchanged = Ghost(self.exchanged@.push(Exchange::Discovered(monitors_result(r))));
        r
    }

    fn input_capabilities(&mut self, handle: &MonitorHandle) -> (r: Result<
        InputCapabilities,
        BackendError,
    >)
        ensures
            final(self).monitors() == old(self).monitors(),
            final(self).was_read() == old(self).was_read(),
            final(self).broken() == old(self).broken(),
            match r {
                Ok(c) => old(self).place(handle.backend_id@) matches Some(i) && c.deep_view() == ({
                    let m = old(self).monitors()[i];
                    InputCapabilitiesView {
                        feature_present: m.has_inputs(),
                        options: if m.has_inputs() {
                            standard_options(m.advertised)
                        } else {
                            Seq::empty()
                        },
                        raw_capabilities: if m.has_inputs() {
                            Some("(vcp(60(01 03 11 0F)))"@)
                        } else {
                            None
                        },
                        raw_output: "fake capabilities for "@ + handle.backend_id@,
                    }
                }),
                Err(e) => old(self).place(handle.backend_id@) is None && e.deep_view()
                    == no_such_monitor(handle.backend_id@),
            },
    {
        let r = self.claimed_inputs(handle);
        self.exchanged = Ghost(self.exchanged@.push(Exchange::Asked(handle.deep_view(), capabilities_result(r))));
        r
    }

    fn read_input(&mut self, handle: &MonitorHandle) -> (r: Result<InputReading, BackendError>)
        ensures
            final(self).monitors() == old(self).monitors(),
            final(self).broken() == old(self).broken(),
            match r {
                Ok(reading) => old(self).place(handle.backend_id@) matches Some(i)
                    && reading.deep_view() == old(self).monitors()[i].answer()
                    && final(self).was_read() == old(self).was_read().push(handle.backend_id@),
                Err(e) => old(self).place(handle.backend_id@) is None && e.deep_view()
                    == no_such_monitor(handle.backend_id@) && final(self).was_read()
                    == old(self).was_read(),
            },
    {
        let r = self.answer_read(handle);
        self.exchanged = Ghost(self.exchanged@.push(Exchange::Read(handle.deep_view(), reading_answer(r))));
        r
    }

    fn set_input(&mut self, handle: &MonitorHandle, value: InputCode) -> (r: Result<
        WriteOutcome,
        BackendError,
    >)
        ensures
            final(self).was_read() == old(self).was_read(),
            final(self).broken() == old(self).broken(),
            match old(self).place(handle.backend_id@) {
                Some(i) => {
                    &&& final(self).sent() == old(self).sent().push((handle.backend_id@, value))
                    &&& final(self).monitors() == old(self).monitors().update(
                        i,
                        old(self).monitors()[i].written(value),
                    )
                    &&& match r {
                        Ok(o) => old(self).monitors()[i].write_answer() == Ok::<
                            WriteOutcomeView,
                            BackendErrorView,
                        >(o.deep_view()),
                        Err(e) => old(self).monitors()[i].write_answer() == Err::<
                            WriteOutcomeView,
                            BackendErrorView,
                        >(e.deep_view()),
                    }
                },
                None => {
                    &&& final(self).sent() == old(self).sent()
                    &&& final(self).monitors() == old(self).monitors()
                    &&& r matches Err(e) && e.deep_view() == no_such_monitor(handle.backend_id@)
                },
            },
    {
        let r = self.take_write(handle, value);
        self.exchanged = Ghost(self.exchanged@.push(Exchange::Wrote(handle.deep_view(), value, write_answer(r))));
        r
    }
}

// ---------------------------------------------------------------------------
// What a fake promises
// ---------------------------------------------------------------------------

/// A monitor that behaves and is not lying answers a read with what was last
/// written to it.
pub proof fn law_a_read_gives_back_what_was_written(m: FakeMonitorView, value: InputCode)
    requires
        m.behavior is Normal,
        !m.silent,
        m.misreports is None,
    ensures
        m.written(value).answer() == InputReadingView::Value(value),
        m.write_answer() == Ok::<WriteOutcomeView, BackendErrorView>(WriteOutcomeView::Accepted),
{
}

/// Writing the same value twice is writing it once.
pub proof fn law_writing_twice_is_writing_once(m: FakeMonitorView, value: InputCode)
    ensures
        m.written(value).written(value) == m.written(value),
{
}

/// A monitor that ignores writes, fails them or has no inputs answers as it
/// did before.
pub proof fn law_a_write_that_does_not_land_changes_no_answer(m: FakeMonitorView, value: InputCode)
    requires
        m.behavior is IgnoresWrites || m.behavior is WriteFails || m.behavior is NoInputFeature,
    ensures
        m.written(value).answer() == m.answer(),
{
}

/// A fake monitor answers as it is made to: one without the feature has none to
/// read or write, a silent one says nothing after a write, and one that fails
/// says what it was given to say.
pub proof fn law_a_fake_monitor_behaves_as_it_is_made_to(m: FakeMonitorView, value: InputCode)
    ensures
        m.behavior is NoInputFeature ==> m.answer() is Unsupported && m.write_answer() is Err
            && !m.has_inputs(),
        m.behavior is SilentAfterWrite ==> m.written(value).answer() is UnavailableAfterSwitch
            && m.written(value).current == Some(value),
        m.behavior matches FakeBehaviorView::ReadFails(why) ==> (!m.silent ==> m.answer() == (
        InputReadingView::ReadFailed { detail: why })),
        m.behavior matches FakeBehaviorView::WriteFails(why) ==> m.write_answer() == Ok::<
            WriteOutcomeView,
            BackendErrorView,
        >(WriteOutcomeView::Failed { detail: why }),
        m.behavior is IgnoresWrites ==> m.written(value) == m && (
        m.write_answer() matches Ok(WriteOutcomeView::Accepted)),
        m.misreports matches Some(claimed) ==> (m.behavior is Normal && !m.silent ==> m.answer()
            == InputReadingView::Value(claimed)),
        m.written(value).identity == m.identity,
        on_connection(m.identity.backend_id)(m),
        forall|id: Seq<char>| #[trigger] elsewhere(id)(m) <==> m.identity.backend_id != id,
        forall|id: Seq<char>| #[trigger] on_connection(id)(m) <==> m.identity.backend_id == id,
{
}

} // verus!

//! Windows' own DDC/CI interface as a backend: what decides which monitor to
//! talk to together with what talks to it.
//!
//! Discovery never talks DDC. A monitor is listed because the display topology
//! says it is there, and whether it answers a particular request never decides
//! whether it exists.

use vstd::prelude::*;

use crate::arrange::{detach_refusal, display_of, RawDisplayView};
use crate::backend::{
    capabilities_result, monitors_result, reading_answer, write_answer, wrote_only, BackendError,
    BackendErrorView, BackendHealth, BackendHealthView, Exchange, HealthFindingView, MonitorBackend,
};
use crate::desktop::{desktop_look, DesktopDisplay, DesktopDisplayView, DesktopError};
use crate::edid::{EdidInfo, EdidInfoView};
use crate::port::{
    lemma_no_puts, lemma_puts_add, lemma_puts_with_waits, puts, with_waits, Port, PortCall,
};
use crate::seqs::{lemma_filter_members, lemma_filter_no_one};
use crate::text::cat2;
use crate::topology::{
    id_of, is_attached, law_an_addressed_display_is_unambiguous, located, Refusal, TopologyEntry,
    TopologyEntryView, INPUT_SOURCE,
};
use crate::tries::{rest_of, try_of, Tries};
use crate::types::{
    DetectedMonitor, DetectedMonitorView, InputCapabilities, InputCapabilitiesView, InputCode,
    InputReading, InputReadingView, MonitorHandle, MonitorHandleView, WriteOutcome,
    WriteOutcomeView,
};
use crate::windows::{
    capabilities_of, caps_exchange, discovery, display_findings, exchange, exchanged, exchanges_of,
    gdi_result, health_elsewhere, identified, identify_calls, lemma_with_waits, look_calls, look_of,
    open, opened_so, outcome_of, reading_of, retried, retry, seen, serial_calls, serial_problem,
    unsupported, windows_health, DdcError, DdcErrorView, Look, Opening, ATTEMPTS, RETRY_DELAY_MS,
    SETTLE_INTERVAL_MS,
};

verus! {

// ---------------------------------------------------------------------------
// The topology
// ---------------------------------------------------------------------------

/// A display of the desktop as an entry of the topology.
pub open spec fn entry_of(d: DesktopDisplayView) -> TopologyEntryView {
    TopologyEntryView {
        device_path: d.device_path,
        gdi_name: d.gdi_name,
        internal: d.is_internal,
        attached: d.is_attached,
    }
}

/// The topology that a look at the desktop shows.
pub open spec fn topology_shown(
    displays: Result<Seq<DesktopDisplayView>, Seq<char>>,
) -> Result<Seq<TopologyEntryView>, BackendErrorView> {
    match displays {
        Ok(all) => Ok(all.map_values(|d: DesktopDisplayView| entry_of(d))),
        Err(why) => Err(BackendErrorView::Io("reading the display topology: "@ + why)),
    }
}

/// The topology, from a look at the desktop.
pub fn topology_from(displays: Result<Vec<DesktopDisplay>, DesktopError>) -> (r: Result<
    Vec<TopologyEntry>,
    BackendError,
>)
    ensures
        look_of(r) == topology_shown(desktop_look(displays)),
{
    match displays {
        Err(e) => Err(
            BackendError::Io(cat2("reading the display topology: ", e.to_string().as_str())),
        ),
        Ok(all) => {
            let ghost want = all.deep_view().map_values(|d: DesktopDisplayView| entry_of(d));
            let mut out: Vec<TopologyEntry> = Vec::new();
            let mut i: usize = 0;
            assert(out.deep_view() =~= want.take(0));
            while i < all.len()
                invariant
                    i <= all.len(),
                    want == all.deep_view().map_values(|d: DesktopDisplayView| entry_of(d)),
                    out.deep_view() == want.take(i as int),
                decreases all.len() - i,
            {
                let d: &DesktopDisplay = &all[i];
                let ghost before = out.deep_view();
                let entry = TopologyEntry {
                    device_path: d.device_path.clone(),
                    gdi_name: d.gdi_name.clone(),
                    internal: d.is_internal,
                    attached: d.is_attached,
                };
                assert(entry.deep_view() == want[i as int]);
                out.push(entry);
                assert(out.deep_view() =~= before.push(want[i as int]));
                assert(want.take(i as int + 1) =~= want.take(i as int).push(want[i as int]));
                i += 1;
            }
            assert(want.take(want.len() as int) =~= want);
            Ok(out)
        },
    }
}

// ---------------------------------------------------------------------------
// Exchanges with the monitor that was opened
// ---------------------------------------------------------------------------

/// The input of the monitor behind a GDI source was read.
pub open spec fn got_call(gdi: Seq<char>) -> spec_fn(Result<u32, DdcErrorView>) -> PortCall {
    |out: Result<u32, DdcErrorView>| PortCall::Got(gdi, INPUT_SOURCE, out)
}

/// The input of the monitor behind a GDI source was written.
pub open spec fn put_call(id: Seq<char>, gdi: Seq<char>, value: InputCode) -> spec_fn(
    Result<(), DdcErrorView>,
) -> PortCall {
    |out: Result<(), DdcErrorView>|
        PortCall::Put { id, gdi, code: INPUT_SOURCE, value: value.0 as u32, out }
}

/// The monitor behind a GDI source was asked for its capabilities.
pub open spec fn told_call(gdi: Seq<char>) -> spec_fn(Result<String, DdcErrorView>) -> PortCall {
    |out: Result<String, DdcErrorView>| PortCall::Told(gdi, out)
}

/// Exchanges that were made in turn, with a wait between two of them.
pub open spec fn exchange_calls<V>(
    outs: Seq<Result<V, DdcErrorView>>,
    call: spec_fn(Result<V, DdcErrorView>) -> PortCall,
) -> Seq<PortCall> {
    with_waits(outs.map_values(call), RETRY_DELAY_MS)
}

pub open spec fn text_told(out: Result<String, DdcErrorView>) -> Result<Seq<char>, Seq<char>> {
    match out {
        Ok(s) => Ok(s@),
        Err(e) => Err(e.detail),
    }
}

/// A monitor whose input is read.
pub struct Reading {
    pub gdi: String,
}

impl<
    T: Fn() -> Result<Vec<TopologyEntry>, BackendError>,
    E: Fn(&String) -> Option<EdidInfo>,
    C: Fn(&String) -> Result<usize, DdcError>,
    G: Fn(&String, u8) -> Result<u32, DdcError>,
    S: Fn(&String, u8, u32) -> Result<(), DdcError>,
    Q: Fn(&String) -> Result<String, DdcError>,
    P: Fn(u64),
> Tries<Reading, Result<u32, DdcError>> for Port<T, E, C, G, S, Q, P> {
    type Step = PortCall;

    open spec fn steps(&self) -> Seq<PortCall> {
        self.calls()
    }

    open spec fn gave(goal: Reading, step: PortCall, answer: Result<u32, DdcError>) -> bool {
        step == got_call(goal.gdi@)(exchange(answer))
    }

    open spec fn rested(goal: Reading, step: PortCall) -> bool {
        step == PortCall::Waited(RETRY_DELAY_MS)
    }

    fn attempt(&mut self, goal: &Reading) -> (r: Result<u32, DdcError>) {
        let r = self.get(&goal.gdi, INPUT_SOURCE);
        let ghost step = got_call(goal.gdi@)(exchange(r));
        assert(<Self as Tries<Reading, Result<u32, DdcError>>>::gave(*goal, step, r));
        r
    }

    fn rest(&mut self, goal: &Reading) {
        self.wait(RETRY_DELAY_MS);
        assert(<Self as Tries<Reading, Result<u32, DdcError>>>::rested(
            *goal,
            PortCall::Waited(RETRY_DELAY_MS),
        ));
    }
}

/// A monitor whose input is written.
pub struct Writing {
    pub id: String,
    pub gdi: String,
    pub value: InputCode,
}

impl<
    T: Fn() -> Result<Vec<TopologyEntry>, BackendError>,
    E: Fn(&String) -> Option<EdidInfo>,
    C: Fn(&String) -> Result<usize, DdcError>,
    G: Fn(&String, u8) -> Result<u32, DdcError>,
    S: Fn(&String, u8, u32) -> Result<(), DdcError>,
    Q: Fn(&String) -> Result<String, DdcError>,
    P: Fn(u64),
> Tries<Writing, Result<(), DdcError>> for Port<T, E, C, G, S, Q, P> {
    type Step = PortCall;

    open spec fn steps(&self) -> Seq<PortCall> {
        self.calls()
    }

    open spec fn gave(goal: Writing, step: PortCall, answer: Result<(), DdcError>) -> bool {
        step == put_call(goal.id@, goal.gdi@, goal.value)(exchange(answer))
    }

    open spec fn rested(goal: Writing, step: PortCall) -> bool {
        step == PortCall::Waited(RETRY_DELAY_MS)
    }

    fn attempt(&mut self, goal: &Writing) -> (r: Result<(), DdcError>) {
        let r = self.put(goal.id.as_str(), &goal.gdi, INPUT_SOURCE, goal.value.0 as u32);
        let ghost step = put_call(goal.id@, goal.gdi@, goal.value)(exchange(r));
        assert(<Self as Tries<Writing, Result<(), DdcError>>>::gave(*goal, step, r));
        r
    }

    fn rest(&mut self, goal: &Writing) {
        self.wait(RETRY_DELAY_MS);
        assert(<Self as Tries<Writing, Result<(), DdcError>>>::rested(
            *goal,
            PortCall::Waited(RETRY_DELAY_MS),
        ));
    }
}

/// A monitor that is asked for its capabilities.
pub struct Asking {
    pub gdi: String,
}

impl<
    T: Fn() -> Result<Vec<TopologyEntry>, BackendError>,
    E: Fn(&String) -> Option<EdidInfo>,
    C: Fn(&String) -> Result<usize, DdcError>,
    G: Fn(&String, u8) -> Result<u32, DdcError>,
    S: Fn(&String, u8, u32) -> Result<(), DdcError>,
    Q: Fn(&String) -> Result<String, DdcError>,
    P: Fn(u64),
> Tries<Asking, Result<String, DdcError>> for Port<T, E, C, G, S, Q, P> {
    type Step = PortCall;

    open spec fn steps(&self) -> Seq<PortCall> {
        self.calls()
    }

    open spec fn gave(goal: Asking, step: PortCall, answer: Result<String, DdcError>) -> bool {
        step == told_call(goal.gdi@)(exchange(answer))
    }

    open spec fn rested(goal: Asking, step: PortCall) -> bool {
        step == PortCall::Waited(RETRY_DELAY_MS)
    }

    fn attempt(&mut self, goal: &Asking) -> (r: Result<String, DdcError>) {
        let r = self.ask(&goal.gdi);
        let ghost step = told_call(goal.gdi@)(exchange(r));
        assert(<Self as Tries<Asking, Result<String, DdcError>>>::gave(*goal, step, r));
        r
    }

    fn rest(&mut self, goal: &Asking) {
        self.wait(RETRY_DELAY_MS);
        assert(<Self as Tries<Asking, Result<String, DdcError>>>::rested(
            *goal,
            PortCall::Waited(RETRY_DELAY_MS),
        ));
    }
}

/// Exchanges that were repeated are the exchanges with waits between them.
proof fn lemma_exchanged<V, H, A: Tries<H, Result<V, DdcError>, Step = PortCall>>(
    goal: H,
    before: Seq<PortCall>,
    after: Seq<PortCall>,
    answers: Seq<Result<V, DdcError>>,
    steps: Seq<PortCall>,
    call: spec_fn(Result<V, DdcErrorView>) -> PortCall,
)
    requires
        exchanged::<V, H, A>(ATTEMPTS, goal, before, after, answers, steps),
        forall|step: PortCall, answer: Result<V, DdcError>| #[trigger]
            A::gave(goal, step, answer) ==> step == call(exchange(answer)),
        forall|step: PortCall| #[trigger]
            A::rested(goal, step) ==> step == PortCall::Waited(RETRY_DELAY_MS),
    ensures
        retried(exchanges_of(answers), ATTEMPTS),
        after == before + exchange_calls(exchanges_of(answers), call),
        exchanges_of(answers).last() == exchange(answers.last()),
{
    let outs = exchanges_of(answers);
    let calls = outs.map_values(call);
    assert forall|i: int| 0 <= i < answers.len() implies #[trigger] try_of(steps, i)
        == calls[i] by {
        assert(A::gave(goal, try_of(steps, i), answers[i]));
    }
    assert forall|i: int| 0 <= i < answers.len() - 1 implies #[trigger] rest_of(steps, i)
        == PortCall::Waited(RETRY_DELAY_MS) by {
        assert(A::rested(goal, rest_of(steps, i)));
    }
    lemma_with_waits(steps, calls, RETRY_DELAY_MS);
}

/// What is asked and done to read the input of a monitor, in order.
pub open spec fn read_calls(
    handle: MonitorHandleView,
    o: Opening,
    outs: Seq<Result<u32, DdcErrorView>>,
) -> Seq<PortCall> {
    o.calls(handle) + match o.result(handle) {
        Err(_) => Seq::empty(),
        Ok(gdi) => exchange_calls(outs, got_call(gdi)),
    }
}

/// What is asked and done to write the input of a monitor, in order.
pub open spec fn write_calls(
    handle: MonitorHandleView,
    value: InputCode,
    o: Opening,
    outs: Seq<Result<(), DdcErrorView>>,
) -> Seq<PortCall> {
    o.calls(handle) + match o.result(handle) {
        Err(_) => Seq::empty(),
        Ok(gdi) => exchange_calls(outs, put_call(handle.backend_id, gdi, value)),
    }
}

/// What is asked to learn the capabilities of a monitor, in order.
pub open spec fn capability_calls(
    handle: MonitorHandleView,
    o: Opening,
    outs: Seq<Result<String, DdcErrorView>>,
) -> Seq<PortCall> {
    o.calls(handle) + match o.result(handle) {
        Err(_) => Seq::empty(),
        Ok(gdi) => exchange_calls(outs, told_call(gdi)),
    }
}

/// What is asked to list the displays, in order.
pub open spec fn list_calls(look: Look, edids: Seq<Option<EdidInfoView>>) -> Seq<PortCall> {
    seq![PortCall::Looked(look)] + match look {
        Err(_) => Seq::empty(),
        Ok(entries) => identify_calls(entries.filter(is_attached()), edids),
    }
}

/// These exchanges are possible with a monitor that was opened like this.
pub open spec fn possible<V>(
    handle: MonitorHandleView,
    settle: bool,
    o: Opening,
    outs: Seq<Result<V, DdcErrorView>>,
) -> bool {
    &&& o.fair(handle, settle)
    &&& o.result(handle) is Ok ==> retried(outs, ATTEMPTS)
}

/// The reading that comes of it.
pub open spec fn read_result(
    handle: MonitorHandleView,
    o: Opening,
    outs: Seq<Result<u32, DdcErrorView>>,
) -> Result<InputReadingView, BackendErrorView> {
    match o.result(handle) {
        Err(e) => Err(e),
        Ok(_) => Ok(reading_of(outs.last())),
    }
}

/// What comes of a write.
pub open spec fn write_result(
    handle: MonitorHandleView,
    o: Opening,
    outs: Seq<Result<(), DdcErrorView>>,
) -> Result<WriteOutcomeView, BackendErrorView> {
    match o.result(handle) {
        Err(e) => Err(e),
        Ok(_) => Ok(outcome_of(outs.last())),
    }
}

/// The capabilities that come of it.
pub open spec fn capability_result(
    handle: MonitorHandleView,
    o: Opening,
    outs: Seq<Result<String, DdcErrorView>>,
) -> Result<InputCapabilitiesView, BackendErrorView> {
    match o.result(handle) {
        Err(e) => Err(e),
        Ok(_) => capabilities_of(handle.backend_id, text_told(outs.last())),
    }
}

/// The displays that come of it.
pub open spec fn list_result(look: Look, edids: Seq<Option<EdidInfoView>>) -> Result<
    Seq<DetectedMonitorView>,
    BackendErrorView,
> {
    match look {
        Err(e) => Err(e),
        Ok(entries) => Ok(discovery(entries.filter(is_attached()), edids)),
    }
}

/// The input of a monitor was read like this, and nothing else was done.
pub open spec fn was_read(
    before: Seq<PortCall>,
    after: Seq<PortCall>,
    handle: MonitorHandleView,
    o: Opening,
    outs: Seq<Result<u32, DdcErrorView>>,
    result: Result<InputReadingView, BackendErrorView>,
) -> bool {
    &&& possible(handle, false, o, outs)
    &&& after == before + read_calls(handle, o, outs)
    &&& result == read_result(handle, o, outs)
}

/// The input of a monitor was written like this, and nothing else was done.
pub open spec fn was_written(
    before: Seq<PortCall>,
    after: Seq<PortCall>,
    handle: MonitorHandleView,
    value: InputCode,
    o: Opening,
    outs: Seq<Result<(), DdcErrorView>>,
    result: Result<WriteOutcomeView, BackendErrorView>,
) -> bool {
    &&& possible(handle, true, o, outs)
    &&& after == before + write_calls(handle, value, o, outs)
    &&& result == write_result(handle, o, outs)
}

/// A monitor was asked for its capabilities like this, and nothing else was
/// done.
pub open spec fn was_asked(
    before: Seq<PortCall>,
    after: Seq<PortCall>,
    handle: MonitorHandleView,
    o: Opening,
    outs: Seq<Result<String, DdcErrorView>>,
    result: Result<InputCapabilitiesView, BackendErrorView>,
) -> bool {
    &&& possible(handle, true, o, outs)
    &&& after == before + capability_calls(handle, o, outs)
    &&& result == capability_result(handle, o, outs)
}

/// The displays were listed like this, and nothing else was done.
pub open spec fn was_listed(
    before: Seq<PortCall>,
    after: Seq<PortCall>,
    look: Look,
    edids: Seq<Option<EdidInfoView>>,
    result: Result<Seq<DetectedMonitorView>, BackendErrorView>,
) -> bool {
    &&& after == before + list_calls(look, edids)
    &&& result == list_result(look, edids)
}

/// Lists the displays of the desktop.
fn list<
    T: Fn() -> Result<Vec<TopologyEntry>, BackendError>,
    E: Fn(&String) -> Option<EdidInfo>,
    C: Fn(&String) -> Result<usize, DdcError>,
    G: Fn(&String, u8) -> Result<u32, DdcError>,
    S: Fn(&String, u8, u32) -> Result<(), DdcError>,
    Q: Fn(&String) -> Result<String, DdcError>,
    P: Fn(u64),
>(port: &mut Port<T, E, C, G, S, Q, P>) -> (r: Result<Vec<DetectedMonitor>, BackendError>)
    ensures
        exists|look: Look, edids: Seq<Option<EdidInfoView>>|
            #[trigger] was_listed(
                old(port).calls(),
                final(port).calls(),
                look,
                edids,
                monitors_result(r),
            ),
{
    let ghost before = port.calls();
    let shown = port.look();
    let ghost look = look_of(shown);
    match shown {
        Err(e) => {
            let r: Result<Vec<DetectedMonitor>, BackendError> = Err(e);
            let ghost edids: Seq<Option<EdidInfoView>> = Seq::empty();
            assert(port.calls() =~= before + list_calls(look, edids));
            assert(was_listed(before, port.calls(), look, edids, monitors_result(r)));
            r
        },
        Ok(entries) => {
            let ghost between = port.calls();
            let all = entries.as_slice();
            assert(all.deep_view() =~= entries.deep_view());
            let found = crate::windows::discover(all, port);
            let ghost es = entries.deep_view().filter(is_attached());
            let ghost edids = choose|edids: Seq<Option<EdidInfoView>>|
                #[trigger] identified(between, port.calls(), es, edids) && found.deep_view()
                    == discovery(es, edids);
            let r: Result<Vec<DetectedMonitor>, BackendError> = Ok(found);
            assert(port.calls() =~= before + list_calls(look, edids));
            assert(was_listed(before, port.calls(), look, edids, monitors_result(r)));
            r
        },
    }
}

/// Reads the input of a monitor.
fn read<
    T: Fn() -> Result<Vec<TopologyEntry>, BackendError>,
    E: Fn(&String) -> Option<EdidInfo>,
    C: Fn(&String) -> Result<usize, DdcError>,
    G: Fn(&String, u8) -> Result<u32, DdcError>,
    S: Fn(&String, u8, u32) -> Result<(), DdcError>,
    Q: Fn(&String) -> Result<String, DdcError>,
    P: Fn(u64),
>(port: &mut Port<T, E, C, G, S, Q, P>, monitor: &MonitorHandle) -> (r: Result<
    InputReading,
    BackendError,
>)
    ensures
        exists|o: Opening, outs: Seq<Result<u32, DdcErrorView>>|
            #[trigger] was_read(
                old(port).calls(),
                final(port).calls(),
                monitor.deep_view(),
                o,
                outs,
                reading_answer(r),
            ),
{
    let ghost h = monitor.deep_view();
    let ghost before = port.calls();
    let source = open(monitor, false, port);
    let ghost o = choose|o: Opening|
        #[trigger] opened_so(before, port.calls(), h, false, o) && gdi_result(source)
            == o.result(h);
    match source {
        Err(e) => {
            let r: Result<InputReading, BackendError> = Err(e);
            let ghost outs: Seq<Result<u32, DdcErrorView>> = Seq::empty();
            assert(port.calls() =~= before + read_calls(h, o, outs));
            assert(was_read(before, port.calls(), h, o, outs, reading_answer(r)));
            r
        },
        Ok(gdi) => {
            let ghost between = port.calls();
            let goal = Reading { gdi };
            let last = retry(ATTEMPTS, port, &goal);
            let ghost outs: Seq<Result<u32, DdcErrorView>>;
            proof {
                let (answers, steps) = choose|
                    answers: Seq<Result<u32, DdcError>>,
                    steps: Seq<PortCall>,
                |
                    #[trigger] exchanged::<u32, Reading, Port<T, E, C, G, S, Q, P>>(
                        ATTEMPTS,
                        goal,
                        between,
                        port.calls(),
                        answers,
                        steps,
                    ) && answers.last() == last;
                lemma_exchanged::<u32, Reading, Port<T, E, C, G, S, Q, P>>(
                    goal,
                    between,
                    port.calls(),
                    answers,
                    steps,
                    got_call(gdi@),
                );
                outs = exchanges_of(answers);
            }
            assert(port.calls() =~= before + read_calls(h, o, outs));
            let reading = crate::windows::read_input(last);
            let r: Result<InputReading, BackendError> = Ok(reading);
            assert(was_read(before, port.calls(), h, o, outs, reading_answer(r)));
            r
        },
    }
}

/// Writes the input of a monitor.
fn write<
    T: Fn() -> Result<Vec<TopologyEntry>, BackendError>,
    E: Fn(&String) -> Option<EdidInfo>,
    C: Fn(&String) -> Result<usize, DdcError>,
    G: Fn(&String, u8) -> Result<u32, DdcError>,
    S: Fn(&String, u8, u32) -> Result<(), DdcError>,
    Q: Fn(&String) -> Result<String, DdcError>,
    P: Fn(u64),
>(port: &mut Port<T, E, C, G, S, Q, P>, monitor: &MonitorHandle, value: InputCode) -> (r: Result<
    WriteOutcome,
    BackendError,
>)
    ensures
        exists|o: Opening, outs: Seq<Result<(), DdcErrorView>>|
            #[trigger] was_written(
                old(port).calls(),
                final(port).calls(),
                monitor.deep_view(),
                value,
                o,
                outs,
                write_answer(r),
            ),
{
    let ghost h = monitor.deep_view();
    let ghost before = port.calls();
    let source = open(monitor, true, port);
    let ghost o = choose|o: Opening|
        #[trigger] opened_so(before, port.calls(), h, true, o) && gdi_result(source)
            == o.result(h);
    match source {
        Err(e) => {
            let r: Result<WriteOutcome, BackendError> = Err(e);
            let ghost outs: Seq<Result<(), DdcErrorView>> = Seq::empty();
            assert(port.calls() =~= before + write_calls(h, value, o, outs));
            assert(was_written(before, port.calls(), h, value, o, outs, write_answer(r)));
            r
        },
        Ok(gdi) => {
            let ghost between = port.calls();
            let goal = Writing { id: monitor.backend_id.clone(), gdi, value };
            let last = retry(ATTEMPTS, port, &goal);
            let ghost outs: Seq<Result<(), DdcErrorView>>;
            proof {
                let (answers, steps) = choose|
                    answers: Seq<Result<(), DdcError>>,
                    steps: Seq<PortCall>,
                |
                    #[trigger] exchanged::<(), Writing, Port<T, E, C, G, S, Q, P>>(
                        ATTEMPTS,
                        goal,
                        between,
                        port.calls(),
                        answers,
                        steps,
                    ) && answers.last() == last;
                lemma_exchanged::<(), Writing, Port<T, E, C, G, S, Q, P>>(
                    goal,
                    between,
                    port.calls(),
                    answers,
                    steps,
                    put_call(h.backend_id, gdi@, value),
                );
                outs = exchanges_of(answers);
            }
            assert(port.calls() =~= before + write_calls(h, value, o, outs));
            let outcome = crate::windows::set_input(last);
            let r: Result<WriteOutcome, BackendError> = Ok(outcome);
            assert(was_written(before, port.calls(), h, value, o, outs, write_answer(r)));
            r
        },
    }
}

/// Asks a monitor for its capabilities.
fn list_inputs<
    T: Fn() -> Result<Vec<TopologyEntry>, BackendError>,
    E: Fn(&String) -> Option<EdidInfo>,
    C: Fn(&String) -> Result<usize, DdcError>,
    G: Fn(&String, u8) -> Result<u32, DdcError>,
    S: Fn(&String, u8, u32) -> Result<(), DdcError>,
    Q: Fn(&String) -> Result<String, DdcError>,
    P: Fn(u64),
>(port: &mut Port<T, E, C, G, S, Q, P>, monitor: &MonitorHandle) -> (r: Result<
    InputCapabilities,
    BackendError,
>)
    ensures
        exists|o: Opening, outs: Seq<Result<String, DdcErrorView>>|
            #[trigger] was_asked(
                old(port).calls(),
                final(port).calls(),
                monitor.deep_view(),
                o,
                outs,
                capabilities_result(r),
            ),
{
    let ghost h = monitor.deep_view();
    let ghost before = port.calls();
    let source = open(monitor, true, port);
    let ghost o = choose|o: Opening|
        #[trigger] opened_so(before, port.calls(), h, true, o) && gdi_result(source)
            == o.result(h);
    match source {
        Err(e) => {
            let r: Result<InputCapabilities, BackendError> = Err(e);
            let ghost outs: Seq<Result<String, DdcErrorView>> = Seq::empty();
            assert(port.calls() =~= before + capability_calls(h, o, outs));
            assert(was_asked(before, port.calls(), h, o, outs, capabilities_result(r)));
            r
        },
        Ok(gdi) => {
            let ghost between = port.calls();
            let goal = Asking { gdi };
            let last = retry(ATTEMPTS, port, &goal);
            let ghost outs: Seq<Result<String, DdcErrorView>>;
            proof {
                let (answers, steps) = choose|
                    answers: Seq<Result<String, DdcError>>,
                    steps: Seq<PortCall>,
                |
                    #[trigger] exchanged::<String, Asking, Port<T, E, C, G, S, Q, P>>(
                        ATTEMPTS,
                        goal,
                        between,
                        port.calls(),
                        answers,
                        steps,
                    ) && answers.last() == last;
                lemma_exchanged::<String, Asking, Port<T, E, C, G, S, Q, P>>(
                    goal,
                    between,
                    port.calls(),
                    answers,
                    steps,
                    told_call(gdi@),
                );
                outs = exchanges_of(answers);
            }
            assert(port.calls() =~= before + capability_calls(h, o, outs));
            let ghost said = caps_exchange(last);
            let r = crate::windows::input_capabilities(monitor.backend_id.as_str(), last);
            assert(said == text_told(outs.last()));
            assert(was_asked(before, port.calls(), h, o, outs, capabilities_result(r)));
            r
        },
    }
}

/// What was answered while a monitor was read.
pub struct ReadAnswers {
    pub opening: Opening,
    pub outs: Seq<Result<u32, DdcErrorView>>,
}

/// Each display that can be switched is read in turn.
pub open spec fn poll_calls(found: Seq<DetectedMonitorView>, answers: Seq<ReadAnswers>) -> Seq<
    PortCall,
>
    decreases found.len(),
{
    if found.len() == 0 {
        Seq::empty()
    } else {
        let front = poll_calls(found.drop_last(), answers);
        let a = answers[found.len() - 1];
        if found.last().switchable() {
            front + read_calls(found.last().handle(), a.opening, a.outs)
        } else {
            front
        }
    }
}

/// Whether reading a display gave a value.
pub open spec fn gave(found: DetectedMonitorView, a: ReadAnswers) -> bool {
    found.switchable() && (read_result(found.handle(), a.opening, a.outs) matches Ok(
        InputReadingView::Value(_),
    ))
}

/// The displays were read like this, and nothing else was done: these are the
/// ones that gave a value.
pub open spec fn was_polled(
    before: Seq<PortCall>,
    after: Seq<PortCall>,
    found: Seq<DetectedMonitorView>,
    answers: Seq<ReadAnswers>,
    told: Seq<bool>,
) -> bool {
    &&& answers.len() == found.len()
    &&& told.len() == found.len()
    &&& after == before + poll_calls(found, answers)
    &&& forall|i: int|
        0 <= i < found.len() && (#[trigger] found[i]).switchable() ==> possible(
            found[i].handle(),
            false,
            answers[i].opening,
            answers[i].outs,
        )
    &&& forall|i: int| 0 <= i < found.len() ==> #[trigger] told[i] == gave(found[i], answers[i])
}

/// Only the answers to these displays matter.
proof fn lemma_poll_calls(found: Seq<DetectedMonitorView>, a: Seq<ReadAnswers>, b: Seq<ReadAnswers>)
    requires
        found.len() <= a.len(),
        found.len() <= b.len(),
        forall|i: int| 0 <= i < found.len() ==> #[trigger] a[i] == b[i],
    ensures
        poll_calls(found, a) == poll_calls(found, b),
    decreases found.len(),
{
    if found.len() > 0 {
        lemma_poll_calls(found.drop_last(), a, b);
        assert(a[found.len() - 1] == b[found.len() - 1]);
    }
}

/// Reads each display that can be switched, and tells of each whether it gave a
/// value.
fn poll<
    T: Fn() -> Result<Vec<TopologyEntry>, BackendError>,
    E: Fn(&String) -> Option<EdidInfo>,
    C: Fn(&String) -> Result<usize, DdcError>,
    G: Fn(&String, u8) -> Result<u32, DdcError>,
    S: Fn(&String, u8, u32) -> Result<(), DdcError>,
    Q: Fn(&String) -> Result<String, DdcError>,
    P: Fn(u64),
>(port: &mut Port<T, E, C, G, S, Q, P>, found: &Vec<DetectedMonitor>) -> (r: Vec<bool>)
    ensures
        exists|answers: Seq<ReadAnswers>|
            #[trigger] was_polled(
                old(port).calls(),
                final(port).calls(),
                found.deep_view(),
                answers,
                r@,
            ),
{
    let ghost all = found.deep_view();
    let ghost start = port.calls();
    let ghost mut answers: Seq<ReadAnswers> = Seq::empty();
    let mut out: Vec<bool> = Vec::new();
    let mut i: usize = 0;
    proof {
        assert(all.take(0) =~= Seq::<DetectedMonitorView>::empty());
        assert(start + poll_calls(all.take(0), answers) =~= start);
    }
    while i < found.len()
        invariant
            i <= found.len(),
            all == found.deep_view(),
            was_polled(start, port.calls(), all.take(i as int), answers, out@),
        decreases found.len() - i,
    {
        let ghost told_before = out@;
        let ghost answers_before = answers;
        let ghost front = all.take(i as int);
        let ghost next = all.take(i as int + 1);
        let ghost calls_before = port.calls();
        let m: &DetectedMonitor = &found[i];
        assert(m.deep_view() == all[i as int]);
        assert(next.drop_last() =~= front);
        assert(next.last() == all[i as int]);
        let mut value: bool = false;
        let ghost mut a = ReadAnswers {
            opening: Opening { looks: Seq::empty(), edid: None, count: Ok(0) },
            outs: Seq::empty(),
        };
        if m.identity.transport.supports_input_switching() {
            let handle = m.handle();
            let reading = read(port, &handle);
            proof {
                let h = handle.deep_view();
                let (o, outs) = choose|o: Opening, outs: Seq<Result<u32, DdcErrorView>>|
                    #[trigger] was_read(
                        calls_before,
                        port.calls(),
                        h,
                        o,
                        outs,
                        reading_answer(reading),
                    );
                a = ReadAnswers { opening: o, outs };
            }
            value = match &reading {
                Ok(InputReading::Value(_)) => true,
                _ => false,
            };
        }
        out.push(value);
        proof {
            answers = answers.push(a);
            lemma_poll_calls(front, answers_before, answers);
            assert(answers[next.len() - 1] == a);
            assert(port.calls() =~= start + poll_calls(next, answers));
            assert forall|k: int|
                0 <= k < next.len() && (#[trigger] next[k]).switchable() implies possible(
                next[k].handle(),
                false,
                answers[k].opening,
                answers[k].outs,
            ) by {
                if k < front.len() {
                    assert(next[k] == front[k]);
                    assert(answers[k] == answers_before[k]);
                }
            }
            assert forall|k: int| 0 <= k < next.len() implies #[trigger] out@[k] == gave(
                next[k],
                answers[k],
            ) by {
                if k < front.len() {
                    assert(next[k] == front[k]);
                    assert(answers[k] == answers_before[k]);
                    assert(out@[k] == told_before[k]);
                }
            }
        }
        i += 1;
    }
    assert(all.take(all.len() as int) =~= all);
    out
}

// ---------------------------------------------------------------------------
// What is only read
// ---------------------------------------------------------------------------

proof fn lemma_opening_writes_nothing(handle: MonitorHandleView, o: Opening)
    ensures
        puts(o.calls(handle)) == Seq::<(Seq<char>, InputCode)>::empty(),
{
    let looks = o.looks.map_values(|look: Look| PortCall::Looked(look));
    lemma_no_puts(looks);
    lemma_puts_with_waits(looks, SETTLE_INTERVAL_MS);
    match seen(o.looks, handle.backend_id) {
        Err(_) => {
            lemma_puts_add(look_calls(o.looks), Seq::empty());
        },
        Ok(entry) => {
            let rest = serial_calls(handle, entry, o.edid) + (if serial_problem(
                handle,
                o.edid,
            ) is None {
                seq![PortCall::Counted(entry.gdi_name, o.count)]
            } else {
                Seq::empty()
            });
            lemma_no_puts(rest);
            lemma_puts_add(look_calls(o.looks), rest);
        },
    }
}

proof fn lemma_reading_writes_nothing(
    handle: MonitorHandleView,
    o: Opening,
    outs: Seq<Result<u32, DdcErrorView>>,
)
    ensures
        puts(read_calls(handle, o, outs)) == Seq::<(Seq<char>, InputCode)>::empty(),
{
    lemma_opening_writes_nothing(handle, o);
    match o.result(handle) {
        Err(_) => {
            lemma_puts_add(o.calls(handle), Seq::empty());
        },
        Ok(gdi) => {
            lemma_no_puts(outs.map_values(got_call(gdi)));
            lemma_puts_with_waits(outs.map_values(got_call(gdi)), RETRY_DELAY_MS);
            lemma_puts_add(o.calls(handle), exchange_calls(outs, got_call(gdi)));
        },
    }
}

proof fn lemma_asking_writes_nothing(
    handle: MonitorHandleView,
    o: Opening,
    outs: Seq<Result<String, DdcErrorView>>,
)
    ensures
        puts(capability_calls(handle, o, outs)) == Seq::<(Seq<char>, InputCode)>::empty(),
{
    lemma_opening_writes_nothing(handle, o);
    match o.result(handle) {
        Err(_) => {
            lemma_puts_add(o.calls(handle), Seq::empty());
        },
        Ok(gdi) => {
            lemma_no_puts(outs.map_values(told_call(gdi)));
            lemma_puts_with_waits(outs.map_values(told_call(gdi)), RETRY_DELAY_MS);
            lemma_puts_add(o.calls(handle), exchange_calls(outs, told_call(gdi)));
        },
    }
}

proof fn lemma_listing_writes_nothing(look: Look, edids: Seq<Option<EdidInfoView>>)
    ensures
        puts(list_calls(look, edids)) == Seq::<(Seq<char>, InputCode)>::empty(),
{
    lemma_no_puts(list_calls(look, edids));
}

proof fn lemma_polling_writes_nothing(found: Seq<DetectedMonitorView>, answers: Seq<ReadAnswers>)
    ensures
        puts(poll_calls(found, answers)) == Seq::<(Seq<char>, InputCode)>::empty(),
    decreases found.len(),
{
    if found.len() > 0 {
        let front = poll_calls(found.drop_last(), answers);
        let a = answers[found.len() - 1];
        lemma_polling_writes_nothing(found.drop_last(), answers);
        lemma_reading_writes_nothing(found.last().handle(), a.opening, a.outs);
        lemma_puts_add(front, read_calls(found.last().handle(), a.opening, a.outs));
    }
}

/// Exchanges that write are that many writes of one code to one monitor.
proof fn lemma_written(
    id: Seq<char>,
    gdi: Seq<char>,
    value: InputCode,
    outs: Seq<Result<(), DdcErrorView>>,
)
    ensures
        puts(outs.map_values(put_call(id, gdi, value))) == Seq::new(
            outs.len(),
            |i: int| (id, value),
        ),
    decreases outs.len(),
{
    let calls = outs.map_values(put_call(id, gdi, value));
    if outs.len() > 0 {
        lemma_written(id, gdi, value, outs.drop_last());
        assert(calls.drop_last() =~= outs.drop_last().map_values(put_call(id, gdi, value)));
        assert(calls.last() == put_call(id, gdi, value)(outs.last()));
        assert(InputCode(value.0 as u32 as u8) == value);
    }
    assert(puts(calls) =~= Seq::new(outs.len(), |i: int| (id, value)));
}

// ---------------------------------------------------------------------------
// The backend
// ---------------------------------------------------------------------------

pub struct WindowsBackend<
    T: Fn() -> Result<Vec<TopologyEntry>, BackendError>,
    E: Fn(&String) -> Option<EdidInfo>,
    C: Fn(&String) -> Result<usize, DdcError>,
    G: Fn(&String, u8) -> Result<u32, DdcError>,
    S: Fn(&String, u8, u32) -> Result<(), DdcError>,
    Q: Fn(&String) -> Result<String, DdcError>,
    P: Fn(u64),
> {
    port: Port<T, E, C, G, S, Q, P>,
    exchanged: Ghost<Seq<Exchange>>,
}

impl<
    T: Fn() -> Result<Vec<TopologyEntry>, BackendError>,
    E: Fn(&String) -> Option<EdidInfo>,
    C: Fn(&String) -> Result<usize, DdcError>,
    G: Fn(&String, u8) -> Result<u32, DdcError>,
    S: Fn(&String, u8, u32) -> Result<(), DdcError>,
    Q: Fn(&String) -> Result<String, DdcError>,
    P: Fn(u64),
> WindowsBackend<T, E, C, G, S, Q, P> {
    /// Everything that was asked of the system and written so far.
    pub closed spec fn calls(&self) -> Seq<PortCall> {
        self.port.calls()
    }

    pub fn new(port: Port<T, E, C, G, S, Q, P>) -> (r: Self)
        ensures
            r.calls() == port.calls(),
            r.heard() == Seq::<Exchange>::empty(),
    {
        WindowsBackend { port, exchanged: Ghost(Seq::empty()) }
    }
}

/// A health check was made like this, and nothing else was done.
pub open spec fn was_checked(
    before: Seq<PortCall>,
    after: Seq<PortCall>,
    look: Look,
    edids: Seq<Option<EdidInfoView>>,
    answers: Seq<ReadAnswers>,
    told: Seq<bool>,
    health: BackendHealthView,
) -> bool {
    let found = list_result(look, edids);
    let between = before + list_calls(look, edids);
    &&& match found {
        Ok(all) => was_polled(between, after, all, answers, told),
        Err(_) => after == between,
    }
    &&& health == windows_health(
        seq![
            HealthFindingView::info(
                "Talks to monitors through Windows' own DDC/CI API; nothing to install or keep running."@,
            ),
        ] + display_findings(found, told),
    )
}

impl<
    T: Fn() -> Result<Vec<TopologyEntry>, BackendError>,
    E: Fn(&String) -> Option<EdidInfo>,
    C: Fn(&String) -> Result<usize, DdcError>,
    G: Fn(&String, u8) -> Result<u32, DdcError>,
    S: Fn(&String, u8, u32) -> Result<(), DdcError>,
    Q: Fn(&String) -> Result<String, DdcError>,
    P: Fn(u64),
> MonitorBackend for WindowsBackend<T, E, C, G, S, Q, P> {
    open spec fn sent(&self) -> Seq<(Seq<char>, InputCode)> {
        puts(self.calls())
    }

    closed spec fn heard(&self) -> Seq<Exchange> {
        self.exchanged@
    }

    fn name(&self) -> (r: &str)
        ensures
            r@ == "windows"@,
    {
        "windows"
    }

    fn health(&mut self) -> (r: BackendHealth)
        ensures
            exists|
                look: Look,
                edids: Seq<Option<EdidInfoView>>,
                answers: Seq<ReadAnswers>,
                told: Seq<bool>,
            |
                #[trigger] was_checked(
                    old(self).calls(),
                    final(self).calls(),
                    look,
                    edids,
                    answers,
                    told,
                    r.deep_view(),
                ),
    {
        let ghost before = self.port.calls();
        let listed = list(&mut self.port);
        let ghost between = self.port.calls();
        let ghost found = monitors_result(listed);
        let ghost (look, edids) = choose|look: Look, edids: Seq<Option<EdidInfoView>>|
            #[trigger] was_listed(before, between, look, edids, found);
        let told = match &listed {
            Ok(all) => poll(&mut self.port, all),
            Err(_) => {
                let none: Vec<bool> = Vec::new();
                none
            },
        };
        let r = crate::windows::health(&listed, &told);
        proof {
            lemma_listing_writes_nothing(look, edids);
            lemma_puts_add(before, list_calls(look, edids));
            match found {
                Ok(all) => {
                    let answers = choose|answers: Seq<ReadAnswers>|
                        #[trigger] was_polled(between, self.port.calls(), all, answers, told@);
                    lemma_polling_writes_nothing(all, answers);
                    lemma_puts_add(between, poll_calls(all, answers));
                    assert(was_checked(
                        before,
                        self.port.calls(),
                        look,
                        edids,
                        answers,
                        told@,
                        r.deep_view(),
                    ));
                },
                Err(_) => {
                    let none: Seq<ReadAnswers> = Seq::empty();
                    assert(was_checked(
                        before,
                        self.port.calls(),
                        look,
                        edids,
                        none,
                        told@,
                        r.deep_view(),
                    ));
                },
            }
        }
        self.exchanged = Ghost(self.exchanged@.push(Exchange::Checked(r.deep_view())));
        r
    }

    fn discover(&mut self) -> (r: Result<Vec<DetectedMonitor>, BackendError>)
        ensures
            exists|look: Look, edids: Seq<Option<EdidInfoView>>|
                #[trigger] was_listed(
                    old(self).calls(),
                    final(self).calls(),
                    look,
                    edids,
                    monitors_result(r),
                ),
    {
        let ghost before = self.port.calls();
        let r = list(&mut self.port);
        proof {
            let (look, edids) = choose|look: Look, edids: Seq<Option<EdidInfoView>>|
                #[trigger] was_listed(before, self.port.calls(), look, edids, monitors_result(r));
            lemma_listing_writes_nothing(look, edids);
            lemma_puts_add(before, list_calls(look, edids));
        }
        self.exchanged = Ghost(self.exchanged@.push(Exchange::Discovered(monitors_result(r))));
        r
    }

    fn input_capabilities(&mut self, monitor: &MonitorHandle) -> (r: Result<
        InputCapabilities,
        BackendError,
    >)
        ensures
            exists|o: Opening, outs: Seq<Result<String, DdcErrorView>>|
                #[trigger] was_asked(
                    old(self).calls(),
                    final(self).calls(),
                    monitor.deep_view(),
                    o,
                    outs,
                    capabilities_result(r),
                ),
    {
        let ghost h = monitor.deep_view();
        let ghost before = self.port.calls();
        let r = list_inputs(&mut self.port, monitor);
        proof {
            let (o, outs) = choose|o: Opening, outs: Seq<Result<String, DdcErrorView>>|
                #[trigger] was_asked(
                    before,
                    self.port.calls(),
                    h,
                    o,
                    outs,
                    capabilities_result(r),
                );
            lemma_asking_writes_nothing(h, o, outs);
            lemma_puts_add(before, capability_calls(h, o, outs));
        }
        self.exchanged = Ghost(
            self.exchanged@.push(Exchange::Asked(monitor.deep_view(), capabilities_result(r))),
        );
        r
    }

    fn read_input(&mut self, monitor: &MonitorHandle) -> (r: Result<InputReading, BackendError>)
        ensures
            exists|o: Opening, outs: Seq<Result<u32, DdcErrorView>>|
                #[trigger] was_read(
                    old(self).calls(),
                    final(self).calls(),
                    monitor.deep_view(),
                    o,
                    outs,
                    reading_answer(r),
                ),
    {
        let ghost h = monitor.deep_view();
        let ghost before = self.port.calls();
        let r = read(&mut self.port, monitor);
        proof {
            let (o, outs) = choose|o: Opening, outs: Seq<Result<u32, DdcErrorView>>|
                #[trigger] was_read(before, self.port.calls(), h, o, outs, reading_answer(r));
            lemma_reading_writes_nothing(h, o, outs);
            lemma_puts_add(before, read_calls(h, o, outs));
        }
        self.exchanged = Ghost(
            self.exchanged@.push(Exchange::Read(monitor.deep_view(), reading_answer(r))),
        );
        r
    }

    fn set_input(&mut self, monitor: &MonitorHandle, value: InputCode) -> (r: Result<
        WriteOutcome,
        BackendError,
    >)
        ensures
            exists|o: Opening, outs: Seq<Result<(), DdcErrorView>>|
                #[trigger] was_written(
                    old(self).calls(),
                    final(self).calls(),
                    monitor.deep_view(),
                    value,
                    o,
                    outs,
                    write_answer(r),
                ),
    {
        let ghost h = monitor.deep_view();
        let ghost before = self.port.calls();
        let r = write(&mut self.port, monitor, value);
        proof {
            let (o, outs) = choose|o: Opening, outs: Seq<Result<(), DdcErrorView>>|
                #[trigger] was_written(
                    before,
                    self.port.calls(),
                    h,
                    value,
                    o,
                    outs,
                    write_answer(r),
                );
            law_a_refused_monitor_is_sent_nothing(h, value, o, outs);
            lemma_puts_add(before, write_calls(h, value, o, outs));
            assert(wrote_only(
                puts(before),
                puts(self.port.calls()),
                monitor.backend_id@,
                value,
            ));
        }
        self.exchanged = Ghost(
            self.exchanged@.push(
                Exchange::Wrote(monitor.deep_view(), value, write_answer(r)),
            ),
        );
        r
    }
}

/// This backend on a system that is not Windows: it refuses everything.
pub struct WindowsElsewhere {
    exchanged: Ghost<Seq<Exchange>>,
}

impl WindowsElsewhere {
    pub fn new() -> (r: Self)
        ensures
            r.heard() == Seq::<Exchange>::empty(),
    {
        WindowsElsewhere { exchanged: Ghost(Seq::empty()) }
    }
}

impl MonitorBackend for WindowsElsewhere {
    closed spec fn sent(&self) -> Seq<(Seq<char>, InputCode)> {
        Seq::empty()
    }

    closed spec fn heard(&self) -> Seq<Exchange> {
        self.exchanged@
    }

    fn name(&self) -> (r: &str)
        ensures
            r@ == "windows"@,
    {
        "windows"
    }

    fn health(&mut self) -> (r: BackendHealth)
        ensures
            r.deep_view() == windows_health(
                seq![
                    HealthFindingView::blocker(
                        "The windows backend only runs on Windows."@,
                        "Use `--backend ddcutil` on Linux."@,
                    ),
                ],
            ),
    {
        let r = health_elsewhere();
        self.exchanged = Ghost(self.exchanged@.push(Exchange::Checked(r.deep_view())));
        r
    }

    fn discover(&mut self) -> (r: Result<Vec<DetectedMonitor>, BackendError>)
        ensures
            r matches Err(e) && e.deep_view() == not_windows(),
    {
        let r = Err(unsupported());
        self.exchanged = Ghost(self.exchanged@.push(Exchange::Discovered(monitors_result(r))));
        r
    }

    fn input_capabilities(&mut self, monitor: &MonitorHandle) -> (r: Result<
        InputCapabilities,
        BackendError,
    >)
        ensures
            r matches Err(e) && e.deep_view() == not_windows(),
    {
        let r = Err(unsupported());
        self.exchanged = Ghost(
            self.exchanged@.push(Exchange::Asked(monitor.deep_view(), capabilities_result(r))),
        );
        r
    }

    fn read_input(&mut self, monitor: &MonitorHandle) -> (r: Result<InputReading, BackendError>)
        ensures
            r matches Err(e) && e.deep_view() == not_windows(),
    {
        let r = Err(unsupported());
        self.exchanged = Ghost(
            self.exchanged@.push(Exchange::Read(monitor.deep_view(), reading_answer(r))),
        );
        r
    }

    fn set_input(&mut self, monitor: &MonitorHandle, value: InputCode) -> (r: Result<
        WriteOutcome,
        BackendError,
    >)
        ensures
            r matches Err(e) && e.deep_view() == not_windows(),
            final(self).sent() == old(self).sent(),
    {
        let r = Err(unsupported());
        self.exchanged = Ghost(
            self.exchanged@.push(Exchange::Wrote(monitor.deep_view(), value, write_answer(r))),
        );
        r
    }
}

pub open spec fn not_windows() -> BackendErrorView {
    BackendErrorView::Unsupported {
        detail: "the windows backend only runs on Windows; use ddcutil here"@,
    }
}

// ---------------------------------------------------------------------------
// What the backend promises
// ---------------------------------------------------------------------------

/// A command either has a fully identified monitor and writes, or it refuses
/// and writes nothing. Everything that identifies the monitor is asked before
/// the first write. A write goes out only when exactly one physical monitor was
/// opened for the handle, and is an error otherwise.
pub proof fn law_a_refused_monitor_is_sent_nothing(
    handle: MonitorHandleView,
    value: InputCode,
    o: Opening,
    outs: Seq<Result<(), DdcErrorView>>,
)
    requires
        possible(handle, true, o, outs),
    ensures
        o.calls(handle).is_prefix_of(write_calls(handle, value, o, outs)),
        puts(o.calls(handle)) == Seq::<(Seq<char>, InputCode)>::empty(),
        match o.result(handle) {
            Ok(_) => {
                &&& 1 <= outs.len() <= ATTEMPTS
                &&& puts(write_calls(handle, value, o, outs)) == Seq::new(
                    outs.len(),
                    |i: int| (handle.backend_id, value),
                )
                &&& write_result(handle, o, outs) is Ok
            },
            Err(_) => {
                &&& puts(write_calls(handle, value, o, outs)) == Seq::<
                    (Seq<char>, InputCode),
                >::empty()
                &&& write_result(handle, o, outs) is Err
            },
        },
{
    lemma_opening_writes_nothing(handle, o);
    match o.result(handle) {
        Err(_) => {
            lemma_puts_add(o.calls(handle), Seq::empty());
        },
        Ok(gdi) => {
            let call = put_call(handle.backend_id, gdi, value);
            lemma_written(handle.backend_id, gdi, value, outs);
            lemma_puts_with_waits(outs.map_values(call), RETRY_DELAY_MS);
            lemma_puts_add(o.calls(handle), exchange_calls(outs, call));
        },
    }
}

/// What is only read changes nothing: reading a monitor, asking for its
/// capabilities, listing the displays and polling them send no write.
pub proof fn law_reading_writes_nothing(
    handle: MonitorHandleView,
    o: Opening,
    outs: Seq<Result<u32, DdcErrorView>>,
    claims: Seq<Result<String, DdcErrorView>>,
    look: Look,
    edids: Seq<Option<EdidInfoView>>,
    found: Seq<DetectedMonitorView>,
    answers: Seq<ReadAnswers>,
)
    ensures
        puts(read_calls(handle, o, outs)).len() == 0,
        puts(capability_calls(handle, o, claims)).len() == 0,
        puts(list_calls(look, edids)).len() == 0,
        puts(poll_calls(found, answers)).len() == 0,
{
    lemma_reading_writes_nothing(handle, o, outs);
    lemma_asking_writes_nothing(handle, o, claims);
    lemma_listing_writes_nothing(look, edids);
    lemma_polling_writes_nothing(found, answers);
}

/// What the graphics driver reports as the built-in panel is never detached and
/// never written to, whatever is protected besides.
pub proof fn law_the_built_in_panel_is_left_alone(
    raw: RawDisplayView,
    protected: Seq<Seq<char>>,
    displays: Seq<DesktopDisplayView>,
    entries: Seq<TopologyEntryView>,
    id: Seq<char>,
)
    requires
        raw.is_internal,
    ensures
        detach_refusal(protected, displays, display_of(raw, protected)) is Some,
        located(entries, id) != Ok::<TopologyEntryView, Refusal>(
            entry_of(display_of(raw, protected)),
        ),
{
    if located(entries, id) is Ok {
        law_an_addressed_display_is_unambiguous(entries, id);
    }
}

// ---------------------------------------------------------------------------
// Laws of what goes over the wire
// ---------------------------------------------------------------------------

/// A display is looked at as the desktop shows it: one entry for each, in
/// order, with its own path, source and standing.
pub proof fn law_the_topology_is_the_desktop(displays: Result<Seq<DesktopDisplayView>, Seq<char>>)
    ensures
        displays is Ok <==> topology_shown(displays) is Ok,
        displays matches Ok(all) ==> (topology_shown(displays) matches Ok(entries) && {
            &&& entries.len() == all.len()
            &&& forall|i: int|
                0 <= i < all.len() ==> {
                    let e = #[trigger] entries[i];
                    &&& e.device_path == all[i].device_path
                    &&& e.gdi_name == all[i].gdi_name
                    &&& e.internal == all[i].is_internal
                    &&& e.attached == all[i].is_attached
                }
        }),
{
}

/// Every call of a write that is no wait puts the value into feature 0x60 of
/// the display that was opened, in the name of the monitor it is for. It is
/// sent three times at most, and again only where it was reported to have
/// failed.
pub proof fn law_a_write_goes_to_the_display_that_was_opened(
    handle: MonitorHandleView,
    value: InputCode,
    o: Opening,
    outs: Seq<Result<(), DdcErrorView>>,
    gdi: Seq<char>,
    k: int,
)
    requires
        possible(handle, true, o, outs),
        o.result(handle) == Ok::<Seq<char>, BackendErrorView>(gdi),
        o.calls(handle).len() <= k < write_calls(handle, value, o, outs).len(),
    ensures
        write_calls(handle, value, o, outs)[k] is Waited || (write_calls(
            handle,
            value,
            o,
            outs,
        )[k] matches PortCall::Put { id, gdi: to, code, value: sent, out } && {
            &&& id == handle.backend_id
            &&& to == gdi
            &&& code == 0x60
            &&& sent == value.0
            &&& outs.contains(out)
        }),
        1 <= outs.len() <= 3,
        forall|i: int|
            0 <= i < outs.len() - 1 ==> ((#[trigger] outs[i]) matches Err(e) && e.code
                != 0xC0262584),
        write_calls(handle, value, o, outs).len() == o.calls(handle).len() + 2 * outs.len() - 1,
{
    let call = put_call(handle.backend_id, gdi, value);
    let made = exchange_calls(outs, call);
    let j = k - o.calls(handle).len();
    assert(write_calls(handle, value, o, outs) == o.calls(handle) + made);
    assert(write_calls(handle, value, o, outs)[k] == made[j]);
    if j % 2 == 0 {
        assert(made[j] == call(outs[j / 2]));
        assert(outs.contains(outs[j / 2]));
    }
}

/// Every call of a reading that is no wait reads feature 0x60 of the display
/// that was opened. What is read is what the last of them gave.
pub proof fn law_a_reading_is_of_the_display_that_was_opened(
    handle: MonitorHandleView,
    o: Opening,
    outs: Seq<Result<u32, DdcErrorView>>,
    gdi: Seq<char>,
    k: int,
)
    requires
        possible(handle, false, o, outs),
        o.result(handle) == Ok::<Seq<char>, BackendErrorView>(gdi),
        o.calls(handle).len() <= k < read_calls(handle, o, outs).len(),
    ensures
        read_calls(handle, o, outs)[k] is Waited || (read_calls(
            handle,
            o,
            outs,
        )[k] matches PortCall::Got(from, code, out) && from == gdi && code == 0x60
            && outs.contains(out)),
        read_calls(handle, o, outs).last() == PortCall::Got(gdi, 0x60u8, outs.last()),
        outs.last() matches Ok(reply) ==> (read_result(handle, o, outs) matches Ok(reading) && (
        reply % 256 != 0 ==> (reading matches InputReadingView::Value(code) && code.0 == reply
            % 256))),
{
    let call = got_call(gdi);
    let made = exchange_calls(outs, call);
    let all = read_calls(handle, o, outs);
    let j = k - o.calls(handle).len();
    assert(all == o.calls(handle) + made);
    assert(all[k] == made[j]);
    if j % 2 == 0 {
        assert(made[j] == call(outs[j / 2]));
        assert(outs.contains(outs[j / 2]));
    }
    let n = outs.len() as int;
    assert(made.len() == 2 * n - 1);
    assert((2 * n - 2) / 2 == n - 1 && (2 * n - 2) % 2 == 0);
    assert(made[2 * n - 2] == call(outs[n - 1]));
    assert(all.last() == made.last());
}

/// The displays listed are those that are part of the desktop: each of them,
/// and no other. None of them is sent anything for it.
pub proof fn law_the_displays_on_the_desktop_are_listed(
    entries: Seq<TopologyEntryView>,
    edids: Seq<Option<EdidInfoView>>,
    i: int,
)
    requires
        0 <= i < entries.len(),
    ensures
        ({
            let all = list_result(Ok(entries), edids)->Ok_0;
            &&& list_result(Ok(entries), edids) is Ok
            &&& entries[i].attached ==> exists|k: int|
                0 <= k < all.len() && (#[trigger] all[k]).identity.backend_id == id_of(
                    entries[i].device_path,
                )
            &&& forall|k: int|
                0 <= k < all.len() ==> exists|j: int|
                    0 <= j < entries.len() && entries[j].attached
                        && #[trigger] id_of(entries[j].device_path)
                        == (#[trigger] all[k]).identity.backend_id
        }),
        list_result(Ok(Seq::empty()), edids) == Ok::<Seq<DetectedMonitorView>, BackendErrorView>(
            Seq::empty(),
        ),
{
    let kept = entries.filter(is_attached());
    let all = list_result(Ok(entries), edids)->Ok_0;
    assert(all == discovery(kept, edids));
    lemma_filter_members(entries, is_attached());
    if entries[i].attached {
        assert(kept.contains(entries[i]));
        let k = choose|k: int| 0 <= k < kept.len() && kept[k] == entries[i];
        assert(all[k].identity.backend_id == id_of(entries[i].device_path));
    }
    assert forall|k: int| 0 <= k < all.len() implies exists|j: int|
        0 <= j < entries.len() && entries[j].attached && #[trigger] id_of(entries[j].device_path)
            == (#[trigger] all[k]).identity.backend_id by {
        assert(is_attached()(kept[k]) && entries.contains(kept[k]));
        let j = choose|j: int| 0 <= j < entries.len() && entries[j] == kept[k];
        assert(id_of(entries[j].device_path) == all[k].identity.backend_id);
    }
    lemma_filter_no_one(Seq::<TopologyEntryView>::empty(), is_attached());
    assert(discovery(Seq::empty(), edids) =~= Seq::empty());
}

/// A display counts as answering where a reading of it came back as an input,
/// and only a switchable one is asked.
pub proof fn law_an_answer_is_an_input(found: DetectedMonitorView, a: ReadAnswers)
    ensures
        gave(found, a) <==> found.switchable() && a.opening.result(found.handle()) is Ok && (
        a.outs.last() matches Ok(reply) && reply % 256 != 0),
{
}

} // verus!

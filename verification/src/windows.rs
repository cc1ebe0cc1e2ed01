//! Windows backend: decides how monitors are reached through Windows' own
//! DDC/CI interface, and what its answers mean.
//!
//! Nothing to install and nothing to keep running. The rule here is that
//! **discovery never talks DDC**. A monitor is listed because Windows' display
//! topology says it is there, and identified by the EDID Windows cached when it
//! was plugged in. Whether it answers a particular request is reported on that
//! request, and never decides whether it exists.

use vstd::prelude::*;

use crate::backend::{
    monitors_result, BackendError, BackendErrorView, BackendHealth, BackendHealthView,
    HealthFinding, HealthFindingView,
};
use crate::digits::{dec, decimal, hex, hex_padded};
use crate::edid::{EdidInfo, EdidInfoView};
use crate::powertoys::opt_edid;
use crate::port::{with_waits, Port, PortCall};
use crate::runner::reachable;
use crate::seqs::{lemma_filter_take, lemma_filter_take_none};
use crate::text::{
    cat2, cat3, cat4, cat5, cat6, eq_ignore_case, has_text, is_blank, join, joined,
    law_nothing_but_case_is_ignored, lemma_has_text_between, occurs_at, same_ignoring_case,
    spelled_alike, texts, trim_str, trimmed,
};
use crate::topology::{
    capabilities_from, claimed, id_of, identity_for, identity_view, is_attached, locate, located,
    may_change, reading_from_reply, refusal_error, reply_view, settled, Refusal, TopologyEntry,
    TopologyEntryView, VCP_NOT_SUPPORTED,
};
use crate::tries::{repeat, repeated, rest_of, took_turns, try_of, Answer, Tries};
use crate::types::{
    DetectedMonitor, DetectedMonitorView, InputCapabilities, InputCapabilitiesView, InputReading,
    InputReadingView, MonitorHandle, MonitorHandleView, WriteOutcome, WriteOutcomeView,
};

verus! {

/// How many times a write is sent when Windows reports it failed.
///
/// Only a reported failure is retried. Repeating an absolute input is harmless
/// by design, and DDC over a converter cable drops the odd transaction. Reads
/// are retried the same way; they change nothing.
pub const ATTEMPTS: usize = 3;

/// How long to wait between attempts, in milliseconds.
pub const RETRY_DELAY_MS: u64 = 400;

/// How long a write waits for Windows to finish re-detecting its displays
/// before believing a missing or mirrored display is real: about five seconds.
/// Reads never wait, so a hotkey is never slowed by a read-back.
pub const SETTLE_ATTEMPTS: usize = 20;

/// How long to wait between two looks at the topology, in milliseconds.
pub const SETTLE_INTERVAL_MS: u64 = 250;

// ---------------------------------------------------------------------------
// Failed exchanges
// ---------------------------------------------------------------------------

/// A failed exchange, with the Windows error code kept for the caller.
#[derive(Debug, PartialEq, Eq)]
pub struct DdcError {
    pub code: u32,
    pub detail: String,
}

pub struct DdcErrorView {
    pub code: u32,
    pub detail: Seq<char>,
}

impl DeepView for DdcError {
    type V = DdcErrorView;

    open spec fn deep_view(&self) -> DdcErrorView {
        DdcErrorView { code: self.code, detail: self.detail@ }
    }
}

impl Clone for DdcError {
    fn clone(&self) -> (r: Self)
        ensures
            r == *self,
    {
        DdcError { code: self.code, detail: self.detail.clone() }
    }
}

/// How a Windows error is told: with its message, if it has one.
pub open spec fn windows_error(what: Seq<char>, code: u32, message: Seq<char>) -> DdcErrorView {
    let number = "0x"@ + hex_padded(code as nat, 8);
    DdcErrorView {
        code,
        detail: if trimmed(message).len() == 0 {
            what + " failed (Windows error "@ + number + ")"@
        } else {
            what + " failed: "@ + trimmed(message) + " ("@ + number + ")"@
        },
    }
}

impl DdcError {
    /// A Windows error, from its code and its message.
    pub fn from_windows(what: &str, code: u32, message: &str) -> (r: DdcError)
        ensures
            r.deep_view() == windows_error(what@, code, message@),
    {
        let number = cat2("0x", hex(code, 8).as_str());
        let said = trim_str(message);
        let detail = if is_blank(message) {
            cat4(what, " failed (Windows error ", number.as_str(), ")")
        } else {
            cat6(what, " failed: ", said.as_str(), " (", number.as_str(), ")")
        };
        DdcError { code, detail }
    }
}

/// One exchange came back like this.
pub open spec fn exchange<T>(out: Result<T, DdcError>) -> Result<T, DdcErrorView> {
    match out {
        Ok(v) => Ok(v),
        Err(e) => Err(e.deep_view()),
    }
}

/// Whether an exchange is worth repeating. A monitor that says it has no such
/// feature will say so again.
pub open spec fn worth_repeating<T>(out: Result<T, DdcErrorView>) -> bool {
    out matches Err(e) && e.code != VCP_NOT_SUPPORTED
}

/// These exchanges were made in turn: each but the last was worth repeating,
/// and one that was is the last only when there were no attempts left.
pub open spec fn retried<T>(outs: Seq<Result<T, DdcErrorView>>, attempts: usize) -> bool {
    &&& 1 <= outs.len() <= attempts
    &&& forall|i: int| 0 <= i < outs.len() - 1 ==> worth_repeating(#[trigger] outs[i])
    &&& worth_repeating(outs.last()) ==> outs.len() == attempts
}

impl<T> Answer for Result<T, DdcError> {
    open spec fn fleeting(&self) -> bool {
        worth_repeating(exchange(*self))
    }

    fn is_fleeting(&self) -> (r: bool) {
        match self {
            Err(e) => e.code != VCP_NOT_SUPPORTED,
            Ok(_) => false,
        }
    }
}

/// What came back of exchanges.
pub open spec fn exchanges_of<T>(
    answers: Seq<Result<T, DdcError>>,
) -> Seq<Result<T, DdcErrorView>> {
    answers.map_values(|out: Result<T, DdcError>| exchange(out))
}

/// An exchange was made until it was not worth repeating, with one wait between
/// two of them, and nothing else was done.
pub open spec fn exchanged<T, G, A: Tries<G, Result<T, DdcError>>>(
    attempts: usize,
    goal: G,
    before: Seq<A::Step>,
    after: Seq<A::Step>,
    answers: Seq<Result<T, DdcError>>,
    steps: Seq<A::Step>,
) -> bool {
    &&& retried(exchanges_of(answers), attempts)
    &&& took_turns::<G, Result<T, DdcError>, A>(goal, answers, steps)
    &&& after == before + steps
}

/// Repeats an exchange until it succeeds, is refused for good, or has been
/// tried often enough.
pub fn retry<T, G, A: Tries<G, Result<T, DdcError>>>(
    attempts: usize,
    tries: &mut A,
    goal: &G,
) -> (r: Result<T, DdcError>)
    requires
        attempts > 0,
    ensures
        exists|answers: Seq<Result<T, DdcError>>, steps: Seq<A::Step>|
            #[trigger] exchanged::<T, G, A>(
                attempts,
                *goal,
                old(tries).steps(),
                final(tries).steps(),
                answers,
                steps,
            ) && answers.last() == r,
{
    let ghost before = tries.steps();
    let r = repeat(attempts, tries, goal);
    proof {
        let (answers, steps) = choose|answers: Seq<Result<T, DdcError>>, steps: Seq<A::Step>|
            #[trigger] repeated::<G, Result<T, DdcError>, A>(
                attempts,
                *goal,
                before,
                tries.steps(),
                answers,
                steps,
            ) && answers.last() == r;
        let outs = exchanges_of(answers);
        assert(outs.last() == exchange(answers.last()));
        assert forall|i: int| 0 <= i < outs.len() - 1 implies worth_repeating(
            #[trigger] outs[i],
        ) by {
            assert(answers[i].fleeting());
        }
        assert(exchanged::<T, G, A>(attempts, *goal, before, tries.steps(), answers, steps));
    }
    r
}

// ---------------------------------------------------------------------------
// Discovery
// ---------------------------------------------------------------------------

/// A display of the desktop as the rest of the library sees it.
pub open spec fn discovered_view(
    entry: TopologyEntryView,
    index: u32,
    edid: Option<EdidInfoView>,
) -> DetectedMonitorView {
    DetectedMonitorView {
        identity: identity_view(entry, index, edid),
        raw: entry.device_path + " on "@ + entry.gdi_name,
    }
}

/// The displays of the desktop, numbered from one, with what their EDIDs say.
pub open spec fn discovery(
    found: Seq<TopologyEntryView>,
    edids: Seq<Option<EdidInfoView>>,
) -> Seq<DetectedMonitorView> {
    Seq::new(found.len(), |i: int| discovered_view(found[i], (i + 1) as u32, edids[i]))
}

/// The EDID of each of these displays is looked up in turn.
pub open spec fn identify_calls(
    found: Seq<TopologyEntryView>,
    edids: Seq<Option<EdidInfoView>>,
) -> Seq<PortCall> {
    Seq::new(found.len(), |i: int| PortCall::Identified(found[i].device_path, edids[i]))
}

/// The displays were listed, and nothing but their EDIDs was asked for.
pub open spec fn identified(
    before: Seq<PortCall>,
    after: Seq<PortCall>,
    found: Seq<TopologyEntryView>,
    edids: Seq<Option<EdidInfoView>>,
) -> bool {
    &&& edids.len() == found.len()
    &&& after == before + identify_calls(found, edids)
}

/// Lists the displays of the desktop.
pub fn discover<
    T: Fn() -> Result<Vec<TopologyEntry>, BackendError>,
    E: Fn(&String) -> Option<EdidInfo>,
    C: Fn(&String) -> Result<usize, DdcError>,
    G: Fn(&String, u8) -> Result<u32, DdcError>,
    S: Fn(&String, u8, u32) -> Result<(), DdcError>,
    Q: Fn(&String) -> Result<String, DdcError>,
    P: Fn(u64),
>(entries: &[TopologyEntry], port: &mut Port<T, E, C, G, S, Q, P>) -> (r: Vec<DetectedMonitor>)
    requires
        entries.len() < u32::MAX,
    ensures
        exists|edids: Seq<Option<EdidInfoView>>|
            #[trigger] identified(
                old(port).calls(),
                final(port).calls(),
                entries.deep_view().filter(is_attached()),
                edids,
            ) && r.deep_view() == discovery(entries.deep_view().filter(is_attached()), edids),
{
    let ghost es = entries.deep_view();
    let ghost p = is_attached();
    let ghost start = port.calls();
    let ghost mut edids: Seq<Option<EdidInfoView>> = Seq::empty();
    let mut out: Vec<DetectedMonitor> = Vec::new();
    let mut i: usize = 0;
    proof {
        lemma_filter_take_none(es, p);
        assert(out.deep_view() =~= discovery(es.take(0).filter(p), edids));
        assert(start + identify_calls(es.take(0).filter(p), edids) =~= start);
    }
    while i < entries.len()
        invariant
            i <= entries.len() < u32::MAX,
            es == entries.deep_view(),
            p == is_attached(),
            edids.len() <= i,
            identified(start, port.calls(), es.take(i as int).filter(p), edids),
            out.deep_view() == discovery(es.take(i as int).filter(p), edids),
        decreases entries.len() - i,
    {
        proof {
            lemma_filter_take(es, p, i as int);
        }
        let e: &TopologyEntry = &entries[i];
        if e.attached {
            let ghost front = es.take(i as int).filter(p);
            let ghost before = out.deep_view();
            let ghost edids_before = edids;
            let edid = port.identify(&e.device_path);
            let ghost ev = opt_edid(edid);
            let n: usize = out.len();
            assert(n == edids.len()) by {
                assert(out.deep_view().len() == n);
            }
            let index: u32 = n as u32 + 1;
            let identity = identity_for(
                e,
                index,
                match &edid {
                    Some(known) => Some(known),
                    None => None,
                },
            );
            out.push(
                DetectedMonitor {
                    identity,
                    raw: cat3(e.device_path.as_str(), " on ", e.gdi_name.as_str()),
                },
            );
            proof {
                edids = edids.push(ev);
                assert(out.deep_view() =~= before.push(
                    discovered_view(es[i as int], index, ev),
                ));
                let whole = front.push(es[i as int]);
                assert(identify_calls(whole, edids) =~= identify_calls(front, edids_before).push(
                    PortCall::Identified(es[i as int].device_path, ev),
                ));
                assert(port.calls() =~= start + identify_calls(whole, edids));
                assert(discovery(whole, edids) =~= out.deep_view()) by {
                    assert forall|k: int| 0 <= k < whole.len() implies discovery(whole, edids)[k]
                        == out.deep_view()[k] by {
                        if k < front.len() {
                            assert(before[k] == discovery(front, edids_before)[k]);
                        }
                    }
                }
            }
        }
        i += 1;
    }
    proof {
        lemma_filter_take_none(es, p);
    }
    out
}

// ---------------------------------------------------------------------------
// Opening one monitor
// ---------------------------------------------------------------------------

/// A look at the topology.
pub type Look = Result<Seq<TopologyEntryView>, BackendErrorView>;

pub open spec fn look_of(out: Result<Vec<TopologyEntry>, BackendError>) -> Look {
    match out {
        Ok(v) => Ok(v.deep_view()),
        Err(e) => Err(e.deep_view()),
    }
}

/// Whether a look is worth repeating: the display is missing or mirrored, which
/// may be Windows still re-detecting its displays. A topology that cannot be
/// read at all is not waited out.
pub open spec fn look_again(look: Look, id: Seq<char>) -> bool {
    look matches Ok(entries) && may_change(located(entries, id))
}

/// These looks were taken in turn.
pub open spec fn looked_in_turn(looks: Seq<Look>, id: Seq<char>, attempts: usize) -> bool {
    &&& 1 <= looks.len() <= attempts
    &&& forall|i: int| 0 <= i < looks.len() - 1 ==> look_again(#[trigger] looks[i], id)
    &&& look_again(looks.last(), id) ==> looks.len() == attempts
}

/// What the last look says of a display.
pub open spec fn seen(looks: Seq<Look>, id: Seq<char>) -> Result<
    TopologyEntryView,
    BackendErrorView,
> {
    match looks.last() {
        Err(e) => Err(e),
        Ok(entries) => match located(entries, id) {
            Ok(entry) => Ok(entry),
            Err(refusal) => Err(refusal_error(refusal, id)),
        },
    }
}

/// The binding layer matched an id to a serial moments ago. It has to hold
/// still, so that a replugged cable can never redirect a write: a display that
/// reports another serial is refused. One that reports none is not.
pub open spec fn serial_problem(
    handle: MonitorHandleView,
    edid: Option<EdidInfoView>,
) -> Option<BackendErrorView> {
    match handle.serial {
        None => None,
        Some(want) => match edid {
            None => None,
            Some(e) => match e.best_serial() {
                None => None,
                Some(have) => if same_ignoring_case(have, want) {
                    None
                } else {
                    Some(
                        BackendErrorView::MonitorNotFound {
                            detail: "`"@ + handle.backend_id + "` now reports serial "@ + have
                                + ", not "@ + (want + "; refusing to write to it"@),
                        },
                    )
                },
            },
        },
    }
}

/// What is wrong with the physical monitors behind a GDI source, unless there
/// is exactly one.
pub open spec fn physical_problem(id: Seq<char>, count: Result<usize, DdcErrorView>) -> Option<
    BackendErrorView,
> {
    match count {
        Err(e) => Some(
            BackendErrorView::MonitorNotFound { detail: "`"@ + id + "`: "@ + e.detail },
        ),
        Ok(n) => if n == 1 {
            None
        } else {
            Some(
                BackendErrorView::Unsupported {
                    detail: "Windows reports "@ + decimal(n as nat)
                        + " physical monitors behind `"@ + id
                        + "`, and gives no way to tell which is which; refusing to guess"@,
                },
            )
        },
    }
}

/// The GDI source of the one physical monitor of a handle, or why there is
/// none, from what was looked up.
pub open spec fn opened(
    handle: MonitorHandleView,
    looks: Seq<Look>,
    edid: Option<EdidInfoView>,
    count: Result<usize, DdcErrorView>,
) -> Result<Seq<char>, BackendErrorView> {
    match seen(looks, handle.backend_id) {
        Err(e) => Err(e),
        Ok(entry) => match serial_problem(handle, edid) {
            Some(e) => Err(e),
            None => match physical_problem(handle.backend_id, count) {
                Some(e) => Err(e),
                None => Ok(entry.gdi_name),
            },
        },
    }
}

pub open spec fn attempts_for(settle: bool) -> usize {
    if settle {
        SETTLE_ATTEMPTS
    } else {
        1
    }
}

/// What was answered while the one physical monitor of a handle was looked for.
pub struct Opening {
    /// Each look at the topology.
    pub looks: Seq<Look>,
    /// The EDID of the display, where a serial was to be checked.
    pub edid: Option<EdidInfoView>,
    /// How many monitors were opened.
    pub count: Result<usize, DdcErrorView>,
}

impl Opening {
    /// The looks were taken in turn.
    pub open spec fn fair(self, handle: MonitorHandleView, settle: bool) -> bool {
        looked_in_turn(self.looks, handle.backend_id, attempts_for(settle))
    }

    /// The GDI source that was opened, or why none was.
    pub open spec fn result(
        self,
        handle: MonitorHandleView,
    ) -> Result<Seq<char>, BackendErrorView> {
        opened(handle, self.looks, self.edid, self.count)
    }

    /// What was asked, in order: the looks with a wait between two of them,
    /// then, for a display that is there, its EDID where a serial is bound, and
    /// its monitors unless the serial is another one.
    pub open spec fn calls(self, handle: MonitorHandleView) -> Seq<PortCall> {
        look_calls(self.looks) + match seen(self.looks, handle.backend_id) {
            Err(_) => Seq::empty(),
            Ok(entry) => serial_calls(handle, entry, self.edid) + (if serial_problem(
                handle,
                self.edid,
            ) is None {
                seq![PortCall::Counted(entry.gdi_name, self.count)]
            } else {
                Seq::empty()
            }),
        }
    }
}

pub open spec fn look_calls(looks: Seq<Look>) -> Seq<PortCall> {
    with_waits(looks.map_values(|look: Look| PortCall::Looked(look)), SETTLE_INTERVAL_MS)
}

pub open spec fn serial_calls(
    handle: MonitorHandleView,
    entry: TopologyEntryView,
    edid: Option<EdidInfoView>,
) -> Seq<PortCall> {
    if handle.serial is Some {
        seq![PortCall::Identified(entry.device_path, edid)]
    } else {
        Seq::empty()
    }
}

/// A display that is looked for.
pub struct Sought {
    pub id: String,
}

/// What one look says of a display that is looked for. A topology that cannot
/// be read is an answer, and not a refusal that may pass.
pub type Found = Result<Result<TopologyEntry, BackendError>, Refusal>;

/// The look says this of a display.
pub open spec fn shows(look: Look, id: Seq<char>, found: Found) -> bool {
    match look {
        Err(e) => found matches Ok(Err(why)) && why.deep_view() == e,
        Ok(entries) => match located(entries, id) {
            Ok(entry) => found matches Ok(Ok(e)) && e.deep_view() == entry,
            Err(refusal) => {
                &&& found == Err::<Result<TopologyEntry, BackendError>, Refusal>(refusal)
                &&& refusal matches Refusal::Mirrored(n) ==> n > 1
            },
        },
    }
}

impl<
    T: Fn() -> Result<Vec<TopologyEntry>, BackendError>,
    E: Fn(&String) -> Option<EdidInfo>,
    C: Fn(&String) -> Result<usize, DdcError>,
    G: Fn(&String, u8) -> Result<u32, DdcError>,
    S: Fn(&String, u8, u32) -> Result<(), DdcError>,
    Q: Fn(&String) -> Result<String, DdcError>,
    P: Fn(u64),
> Tries<Sought, Found> for Port<T, E, C, G, S, Q, P> {
    type Step = PortCall;

    open spec fn steps(&self) -> Seq<PortCall> {
        self.calls()
    }

    open spec fn gave(goal: Sought, step: PortCall, answer: Found) -> bool {
        step matches PortCall::Looked(look) && shows(look, goal.id@, answer)
    }

    open spec fn rested(goal: Sought, step: PortCall) -> bool {
        step == PortCall::Waited(SETTLE_INTERVAL_MS)
    }

    fn attempt(&mut self, goal: &Sought) -> (r: Found) {
        let out = self.look();
        let ghost step = PortCall::Looked(look_of(out));
        let r: Found = match out {
            Err(e) => Ok(Err(e)),
            Ok(entries) => {
                let all = entries.as_slice();
                assert(all.deep_view() =~= entries.deep_view());
                match locate(all, goal.id.as_str()) {
                    Ok(entry) => Ok(Ok(entry.clone())),
                    Err(refusal) => Err(refusal),
                }
            },
        };
        assert(<Self as Tries<Sought, Found>>::gave(*goal, step, r));
        r
    }

    fn rest(&mut self, goal: &Sought) {
        self.wait(SETTLE_INTERVAL_MS);
        assert(<Self as Tries<Sought, Found>>::rested(
            *goal,
            PortCall::Waited(SETTLE_INTERVAL_MS),
        ));
    }
}

/// Steps that alternate with waits are the tries with waits between them.
pub proof fn lemma_with_waits(steps: Seq<PortCall>, calls: Seq<PortCall>, ms: u64)
    requires
        calls.len() > 0,
        steps.len() == 2 * calls.len() - 1,
        forall|i: int| 0 <= i < calls.len() ==> #[trigger] try_of(steps, i) == calls[i],
        forall|i: int|
            0 <= i < calls.len() - 1 ==> #[trigger] rest_of(steps, i) == PortCall::Waited(ms),
    ensures
        steps == with_waits(calls, ms),
{
    let all = with_waits(calls, ms);
    assert forall|k: int| 0 <= k < steps.len() implies steps[k] == all[k] by {
        let i = k / 2;
        if k % 2 == 0 {
            assert(k == 2 * i);
            assert(try_of(steps, i) == steps[k]);
        } else {
            assert(k == 2 * i + 1);
            assert(rest_of(steps, i) == steps[k]);
        }
    }
    assert(steps =~= all);
}

/// A display was looked for like this.
spec fn searched(
    before: Seq<PortCall>,
    after: Seq<PortCall>,
    id: Seq<char>,
    attempts: usize,
    looks: Seq<Look>,
    found: Found,
) -> bool {
    &&& looked_in_turn(looks, id, attempts)
    &&& after == before + look_calls(looks)
    &&& shows(looks.last(), id, found)
}

proof fn lemma_searched<
    T: Fn() -> Result<Vec<TopologyEntry>, BackendError>,
    E: Fn(&String) -> Option<EdidInfo>,
    C: Fn(&String) -> Result<usize, DdcError>,
    G: Fn(&String, u8) -> Result<u32, DdcError>,
    S: Fn(&String, u8, u32) -> Result<(), DdcError>,
    Q: Fn(&String) -> Result<String, DdcError>,
    P: Fn(u64),
>(
    before: Seq<PortCall>,
    after: Seq<PortCall>,
    goal: Sought,
    attempts: usize,
    answers: Seq<Found>,
    steps: Seq<PortCall>,
) -> (looks: Seq<Look>)
    requires
        attempts > 0,
        settled::<Result<TopologyEntry, BackendError>, Sought, Port<T, E, C, G, S, Q, P>>(
            attempts,
            goal,
            before,
            after,
            answers,
            steps,
        ),
    ensures
        searched(before, after, goal.id@, attempts, looks, answers.last()),
{
    let looks = Seq::new(answers.len(), |i: int| try_of(steps, i)->Looked_0);
    let calls = looks.map_values(|look: Look| PortCall::Looked(look));
    assert forall|i: int| 0 <= i < answers.len() implies {
        &&& #[trigger] try_of(steps, i) == calls[i]
        &&& shows(looks[i], goal.id@, answers[i])
    } by {
        let step = try_of(steps, i);
        assert(<Port<T, E, C, G, S, Q, P> as Tries<Sought, Found>>::gave(goal, step, answers[i]));
    }
    assert forall|i: int| 0 <= i < answers.len() - 1 implies #[trigger] rest_of(steps, i)
        == PortCall::Waited(SETTLE_INTERVAL_MS) by {
        let step = rest_of(steps, i);
        assert(<Port<T, E, C, G, S, Q, P> as Tries<Sought, Found>>::rested(goal, step));
    }
    lemma_with_waits(steps, calls, SETTLE_INTERVAL_MS);
    assert forall|i: int| 0 <= i < looks.len() implies look_again(#[trigger] looks[i], goal.id@)
        == may_change(answers[i]) by {
        assert(try_of(steps, i) == calls[i]);
    }
    assert(looked_in_turn(looks, goal.id@, attempts)) by {
        assert forall|i: int| 0 <= i < looks.len() - 1 implies look_again(
            #[trigger] looks[i],
            goal.id@,
        ) by {
            assert(may_change(answers[i]));
        }
        assert(looks.last() == looks[looks.len() - 1]);
    }
    assert(try_of(steps, answers.len() - 1) == calls[answers.len() - 1]);
    looks
}

/// A monitor was looked for like this, and nothing else was asked.
pub open spec fn opened_so(
    before: Seq<PortCall>,
    after: Seq<PortCall>,
    handle: MonitorHandleView,
    settle: bool,
    o: Opening,
) -> bool {
    &&& o.fair(handle, settle)
    &&& after == before + o.calls(handle)
}

pub open spec fn gdi_result(
    r: Result<String, BackendError>,
) -> Result<Seq<char>, BackendErrorView> {
    match r {
        Ok(s) => Ok(s@),
        Err(e) => Err(e.deep_view()),
    }
}

/// The refusal of a display that reports another serial than the one that was
/// bound.
pub fn check_serial(handle: &MonitorHandle, edid: &Option<EdidInfo>) -> (r: Option<BackendError>)
    ensures
        match r {
            Some(e) => serial_problem(handle.deep_view(), opt_edid(*edid)) == Some(e.deep_view()),
            None => serial_problem(handle.deep_view(), opt_edid(*edid)) is None,
        },
{
    let want: &String = match &handle.serial {
        Some(s) => s,
        None => {
            return None;
        },
    };
    let known: &EdidInfo = match edid {
        Some(e) => e,
        None => {
            return None;
        },
    };
    let have = match known.best_serial() {
        Some(s) => s,
        None => {
            return None;
        },
    };
    if eq_ignore_case(have.as_str(), want.as_str()) {
        return None;
    }
    let tail = cat2(want.as_str(), "; refusing to write to it");
    Some(
        BackendError::MonitorNotFound {
            detail: cat6(
                "`",
                handle.backend_id.as_str(),
                "` now reports serial ",
                have.as_str(),
                ", not ",
                tail.as_str(),
            ),
        },
    )
}

/// The refusal of a GDI source that does not have exactly one physical monitor
/// behind it.
pub fn check_physical(id: &str, count: &Result<usize, DdcError>) -> (r: Option<BackendError>)
    ensures
        match r {
            Some(e) => physical_problem(id@, exchange(*count)) == Some(e.deep_view()),
            None => physical_problem(id@, exchange(*count)) is None,
        },
{
    match count {
        Err(e) => Some(
            BackendError::MonitorNotFound { detail: cat4("`", id, "`: ", e.detail.as_str()) },
        ),
        Ok(n) => {
            if *n == 1 {
                None
            } else {
                Some(
                    BackendError::Unsupported {
                        detail: cat5(
                            "Windows reports ",
                            dec(*n as u64).as_str(),
                            " physical monitors behind `",
                            id,
                            "`, and gives no way to tell which is which; refusing to guess",
                        ),
                    },
                )
            }
        },
    }
}

/// Open the one physical monitor for a handle, or refuse. Gives the GDI source
/// that was opened.
///
/// With `settle`, a missing or mirrored display is re-checked for a few
/// seconds first: an action's second step can run while Windows is still
/// re-detecting after its first.
pub fn open<
    T: Fn() -> Result<Vec<TopologyEntry>, BackendError>,
    E: Fn(&String) -> Option<EdidInfo>,
    C: Fn(&String) -> Result<usize, DdcError>,
    G: Fn(&String, u8) -> Result<u32, DdcError>,
    S: Fn(&String, u8, u32) -> Result<(), DdcError>,
    Q: Fn(&String) -> Result<String, DdcError>,
    P: Fn(u64),
>(handle: &MonitorHandle, settle: bool, port: &mut Port<T, E, C, G, S, Q, P>) -> (r: Result<
    String,
    BackendError,
>)
    ensures
        exists|o: Opening|
            #[trigger] opened_so(
                old(port).calls(),
                final(port).calls(),
                handle.deep_view(),
                settle,
                o,
            ) && gdi_result(r) == o.result(handle.deep_view()),
{
    let ghost h = handle.deep_view();
    let ghost before = port.calls();
    let attempts: usize = if settle {
        SETTLE_ATTEMPTS
    } else {
        1
    };
    let goal = Sought { id: handle.backend_id.clone() };
    let found = crate::topology::settle(attempts, port, &goal);
    let ghost after = port.calls();
    let ghost looks: Seq<Look>;
    proof {
        let (answers, steps) = choose|answers: Seq<Found>, steps: Seq<PortCall>|
            #[trigger] settled::<
                Result<TopologyEntry, BackendError>,
                Sought,
                Port<T, E, C, G, S, Q, P>,
            >(
                attempts,
                goal,
                before,
                after,
                answers,
                steps,
            ) && answers.last() == found;
        looks = lemma_searched::<T, E, C, G, S, Q, P>(
            before,
            after,
            goal,
            attempts,
            answers,
            steps,
        );
    }
    let ghost mut o = Opening { looks, edid: None, count: Ok(0) };
    let entry = match found {
        Ok(Ok(e)) => e,
        Ok(Err(e)) => {
            assert(port.calls() =~= before + o.calls(h));
            assert(opened_so(before, port.calls(), h, settle, o));
            return Err(e);
        },
        Err(refusal) => {
            assert(port.calls() =~= before + o.calls(h));
            assert(opened_so(before, port.calls(), h, settle, o));
            return Err(refusal.into_error(handle.backend_id.as_str()));
        },
    };
    assert(seen(looks, h.backend_id) == Ok::<TopologyEntryView, BackendErrorView>(
        entry.deep_view(),
    ));
    let mut edid: Option<EdidInfo> = None;
    if handle.serial.is_some() {
        edid = port.identify(&entry.device_path);
    }
    proof {
        o = Opening { edid: opt_edid(edid), ..o };
        assert(port.calls() =~= after + serial_calls(h, entry.deep_view(), opt_edid(edid)));
    }
    match check_serial(handle, &edid) {
        Some(e) => {
            assert(port.calls() =~= before + o.calls(h));
            assert(opened_so(before, port.calls(), h, settle, o));
            return Err(e);
        },
        None => {},
    }
    let count = port.count(&entry.gdi_name);
    proof {
        o = Opening { count: exchange(count), ..o };
        assert(port.calls() =~= before + o.calls(h));
        assert(opened_so(before, port.calls(), h, settle, o));
    }
    match check_physical(handle.backend_id.as_str(), &count) {
        Some(e) => Err(e),
        None => Ok(entry.gdi_name),
    }
}

// ---------------------------------------------------------------------------
// What exchanges mean
// ---------------------------------------------------------------------------

/// The reading that the last exchange is.
pub open spec fn reading_of(last: Result<u32, DdcErrorView>) -> InputReadingView {
    match last {
        Ok(value) => reply_view(value),
        Err(e) => if e.code == VCP_NOT_SUPPORTED {
            InputReadingView::Unsupported
        } else {
            InputReadingView::ReadFailed {
                detail: e.detail
                    + ". A monitor does this while asleep: on an input with nothing plugged in, or whose computer has turned its screen off."@,
            }
        },
    }
}

/// What the last exchange says of a write.
pub open spec fn outcome_of(last: Result<(), DdcErrorView>) -> WriteOutcomeView {
    match last {
        Ok(_) => WriteOutcomeView::Accepted,
        Err(e) => WriteOutcomeView::Failed {
            detail: e.detail + " (after "@ + decimal(ATTEMPTS as nat) + " attempts)"@,
        },
    }
}

/// What the last exchange says of a monitor's capabilities.
pub open spec fn capabilities_of(id: Seq<char>, last: Result<Seq<char>, Seq<char>>) -> Result<
    InputCapabilitiesView,
    BackendErrorView,
> {
    match last {
        Err(detail) => Err(
            BackendErrorView::Io(
                "`"@ + id + "` did not return its capabilities: "@ + detail
                    + ". This is a long transfer that some cables and adapters cannot carry; switching inputs does not depend on it."@,
            ),
        ),
        Ok(caps) => match claimed(caps) {
            Ok(c) => Ok(c),
            Err(detail) => Err(
                BackendErrorView::UnexpectedOutput {
                    command: "CapabilitiesRequestAndCapabilitiesReply"@,
                    detail,
                    raw: caps,
                },
            ),
        },
    }
}

/// The reading that the last exchange is.
pub fn read_input(last: Result<u32, DdcError>) -> (r: InputReading)
    ensures
        r.deep_view() == reading_of(exchange(last)),
{
    match last {
        Ok(value) => reading_from_reply(value),
        Err(e) => {
            if e.code == VCP_NOT_SUPPORTED {
                InputReading::Unsupported
            } else {
                InputReading::ReadFailed {
                    detail: cat2(
                        e.detail.as_str(),
                        ". A monitor does this while asleep: on an input with nothing plugged in, or whose computer has turned its screen off.",
                    ),
                }
            }
        },
    }
}

/// What the last exchange says of a write.
pub fn set_input(last: Result<(), DdcError>) -> (r: WriteOutcome)
    ensures
        r.deep_view() == outcome_of(exchange(last)),
{
    match last {
        Ok(_) => WriteOutcome::Accepted,
        Err(e) => WriteOutcome::Failed {
            detail: cat4(
                e.detail.as_str(),
                " (after ",
                dec(ATTEMPTS as u64).as_str(),
                " attempts)",
            ),
        },
    }
}

pub open spec fn caps_exchange(last: Result<String, DdcError>) -> Result<Seq<char>, Seq<char>> {
    match last {
        Ok(s) => Ok(s@),
        Err(e) => Err(e.detail@),
    }
}

/// What the last exchange says of a monitor's capabilities.
pub fn input_capabilities(id: &str, last: Result<String, DdcError>) -> (r: Result<
    InputCapabilities,
    BackendError,
>)
    ensures
        crate::backend::capabilities_result(r) == capabilities_of(id@, caps_exchange(last)),
{
    match last {
        Err(e) => Err(
            BackendError::Io(
                cat5(
                    "`",
                    id,
                    "` did not return its capabilities: ",
                    e.detail.as_str(),
                    ". This is a long transfer that some cables and adapters cannot carry; switching inputs does not depend on it.",
                ),
            ),
        ),
        Ok(caps) => match capabilities_from(caps.as_str()) {
            Ok(c) => Ok(c),
            Err(detail) => Err(
                BackendError::UnexpectedOutput {
                    command: "CapabilitiesRequestAndCapabilitiesReply".to_owned(),
                    detail,
                    raw: caps,
                },
            ),
        },
    }
}

// ---------------------------------------------------------------------------
// Health
// ---------------------------------------------------------------------------

/// The external displays that did not answer, in words. `answered` tells of
/// each display whether it did.
pub open spec fn silent_displays(
    found: Seq<DetectedMonitorView>,
    answered: Seq<bool>,
) -> Seq<Seq<char>>
    decreases found.len(),
{
    if found.len() == 0 {
        Seq::empty()
    } else {
        let front = silent_displays(found.drop_last(), answered);
        if found.last().switchable() && !answered[found.len() - 1] {
            front.push(found.last().identity.description())
        } else {
            front
        }
    }
}

/// What is found about the displays.
pub open spec fn display_findings(
    found: Result<Seq<DetectedMonitorView>, BackendErrorView>,
    answered: Seq<bool>,
) -> Seq<HealthFindingView> {
    match found {
        Err(e) => seq![
            HealthFindingView::blocker(
                "Could not read the display topology: "@ + e.message(),
                "This is a Windows API failure, not a monitor problem. Try again, and reboot if it persists."@,
            ),
        ],
        Ok(all) => {
            let external = all.filter(reachable()).len();
            let silent = silent_displays(all, answered);
            seq![
                HealthFindingView::info(
                    decimal(all.len()) + " display(s), "@ + decimal(external) + " external; "@
                        + decimal((external - silent.len()) as nat) + " answered just now"@,
                ),
            ] + (if silent.len() > 0 {
                seq![
                    HealthFindingView::warn(
                        "Not answering right now: "@ + joined(silent, ", "@),
                        "A monitor goes quiet while asleep, on an input with nothing plugged in or whose computer has turned its screen off. It wakes when a picture arrives on that input, not before: a sleeping monitor ignores writes as well as reads. Its own buttons always work."@,
                    ),
                ]
            } else {
                Seq::empty()
            })
        },
    }
}

pub open spec fn windows_health(findings: Seq<HealthFindingView>) -> BackendHealthView {
    BackendHealthView { backend: "windows"@, tool_path: None, tool_version: None, findings }
}

fn find_silent(all: &Vec<DetectedMonitor>, answered: &Vec<bool>) -> (r: (usize, Vec<String>))
    requires
        answered@.len() == all@.len(),
    ensures
        r.0 == all.deep_view().filter(reachable()).len(),
        texts(r.1@) == silent_displays(all.deep_view(), answered@),
        r.1@.len() <= r.0,
{
    let ghost ms = all.deep_view();
    let ghost p = reachable();
    let mut external: usize = 0;
    let mut silent: Vec<String> = Vec::new();
    let mut i: usize = 0;
    proof {
        lemma_filter_take_none(ms, p);
        assert(ms.take(0) =~= Seq::<DetectedMonitorView>::empty());
        assert(texts(silent@) =~= silent_displays(ms.take(0), answered@));
    }
    while i < all.len()
        invariant
            i <= all.len(),
            answered@.len() == all@.len(),
            ms == all.deep_view(),
            p == reachable(),
            external == ms.take(i as int).filter(p).len(),
            external <= i,
            silent@.len() <= external,
            texts(silent@) == silent_displays(ms.take(i as int), answered@),
        decreases all.len() - i,
    {
        proof {
            lemma_filter_take(ms, p, i as int);
            let next = ms.take(i as int + 1);
            assert(next.drop_last() =~= ms.take(i as int));
            assert(next.last() == ms[i as int]);
        }
        if all[i].identity.transport.supports_input_switching() {
            assert(p(ms[i as int]));
            external += 1;
            if !answered[i] {
                let ghost before = silent@;
                let who = all[i].identity.describe();
                let ghost wv = who@;
                silent.push(who);
                assert(texts(silent@) =~= texts(before).push(wv));
            }
        } else {
            assert(!p(ms[i as int]));
        }
        i += 1;
    }
    proof {
        lemma_filter_take_none(ms, p);
    }
    (external, silent)
}

/// The findings of a health check. `answered` tells of each display that was
/// found whether it answered a read.
pub fn health(found: &Result<Vec<DetectedMonitor>, BackendError>, answered: &Vec<bool>) -> (r:
    BackendHealth)
    requires
        found matches Ok(all) ==> answered@.len() == all@.len(),
    ensures
        r.deep_view() == windows_health(
            seq![
                HealthFindingView::info(
                    "Talks to monitors through Windows' own DDC/CI API; nothing to install or keep running."@,
                ),
            ] + display_findings(monitors_result(*found), answered@),
        ),
{
    let mut findings: Vec<HealthFinding> = Vec::new();
    findings.push(
        HealthFinding::info(
            "Talks to monitors through Windows' own DDC/CI API; nothing to install or keep running.",
        ),
    );
    match found {
        Err(e) => {
            findings.push(
                HealthFinding::blocker(
                    cat2(
                        "Could not read the display topology: ",
                        e.to_string().as_str(),
                    ).as_str(),
                    "This is a Windows API failure, not a monitor problem. Try again, and reboot if it persists.",
                ),
            );
        },
        Ok(all) => {
            let (external, silent) = find_silent(all, answered);
            let head = cat4(
                dec(all.len() as u64).as_str(),
                " display(s), ",
                dec(external as u64).as_str(),
                " external; ",
            );
            findings.push(
                HealthFinding::info(
                    cat3(
                        head.as_str(),
                        dec((external - silent.len()) as u64).as_str(),
                        " answered just now",
                    ).as_str(),
                ),
            );
            if silent.len() > 0 {
                let list = join(silent.as_slice(), ", ");
                findings.push(
                    HealthFinding::warn(
                        cat2("Not answering right now: ", list.as_str()).as_str(),
                        "A monitor goes quiet while asleep, on an input with nothing plugged in or whose computer has turned its screen off. It wakes when a picture arrives on that input, not before: a sleeping monitor ignores writes as well as reads. Its own buttons always work.",
                    ),
                );
            }
        },
    }
    let r = BackendHealth {
        backend: "windows".to_owned(),
        tool_path: None,
        tool_version: None,
        findings,
    };
    assert(r.deep_view().findings =~= seq![
        HealthFindingView::info(
            "Talks to monitors through Windows' own DDC/CI API; nothing to install or keep running."@,
        ),
    ] + display_findings(monitors_result(*found), answered@));
    r
}

/// What anything asked of this backend is answered on another system.
pub fn unsupported() -> (r: BackendError)
    ensures
        r.deep_view() == (BackendErrorView::Unsupported {
            detail: "the windows backend only runs on Windows; use ddcutil here"@,
        }),
{
    BackendError::Unsupported {
        detail: "the windows backend only runs on Windows; use ddcutil here".to_owned(),
    }
}

/// The health of this backend on another system.
pub fn health_elsewhere() -> (r: BackendHealth)
    ensures
        r.deep_view() == windows_health(
            seq![
                HealthFindingView::blocker(
                    "The windows backend only runs on Windows."@,
                    "Use `--backend ddcutil` on Linux."@,
                ),
            ],
        ),
{
    let mut findings: Vec<HealthFinding> = Vec::new();
    findings.push(
        HealthFinding::blocker(
            "The windows backend only runs on Windows.",
            "Use `--backend ddcutil` on Linux.",
        ),
    );
    let r = BackendHealth {
        backend: "windows".to_owned(),
        tool_path: None,
        tool_version: None,
        findings,
    };
    assert(r.deep_view().findings =~= seq![
        HealthFindingView::blocker(
            "The windows backend only runs on Windows."@,
            "Use `--backend ddcutil` on Linux."@,
        ),
    ]);
    r
}

// ---------------------------------------------------------------------------
// What the backend promises
// ---------------------------------------------------------------------------

/// A monitor is opened only when the last look at the topology addresses
/// exactly one display by the handle's id, that display does not report
/// another serial than the one that was bound, and exactly one physical
/// monitor stands behind it.
pub proof fn law_only_the_bound_monitor_is_opened(
    handle: MonitorHandleView,
    looks: Seq<Look>,
    edid: Option<EdidInfoView>,
    count: Result<usize, DdcErrorView>,
)
    requires
        opened(handle, looks, edid, count) is Ok,
    ensures
        looks.last() matches Ok(entries) && (located(entries, handle.backend_id) matches Ok(entry)
            && opened(handle, looks, edid, count) == Ok::<Seq<char>, BackendErrorView>(
            entry.gdi_name,
        )),
        count == Ok::<usize, DdcErrorView>(1),
        handle.serial matches Some(want) ==> (edid matches Some(e) ==> (e.best_serial() matches Some(
            have,
        ) ==> same_ignoring_case(have, want))),
{
}

// ---------------------------------------------------------------------------
// Laws of exchanges
// ---------------------------------------------------------------------------

/// An exchange is repeated while it fails, and only so long: until it succeeds,
/// until the monitor says that it has no such feature, or until the attempts
/// are used up.
pub proof fn law_an_exchange_is_repeated_while_it_fails<T>(
    outs: Seq<Result<T, DdcErrorView>>,
    attempts: usize,
)
    ensures
        retried(outs, attempts) <==> {
            &&& 1 <= outs.len() <= attempts
            &&& forall|i: int|
                0 <= i < outs.len() - 1 ==> ((#[trigger] outs[i]) matches Err(e) && e.code
                    != 0xC0262584)
            &&& outs.len() < attempts ==> (outs.last() is Ok || (outs.last() matches Err(e)
                && e.code == 0xC0262584))
        },
{
}

/// A monitor is opened exactly where the last look shows which display it is,
/// where nothing says that another panel is there now, and where one physical
/// monitor stands behind it. What is opened is the source of that display.
pub proof fn law_a_monitor_is_opened_where_it_is_known(
    handle: MonitorHandleView,
    looks: Seq<Look>,
    edid: Option<EdidInfoView>,
    count: Result<usize, DdcErrorView>,
)
    ensures
        opened(handle, looks, edid, count) is Ok <==> {
            &&& looks.last() matches Ok(entries) && located(entries, handle.backend_id) is Ok
            &&& !(handle.serial is Some && (edid matches Some(e) && (e.best_serial() matches Some(
                have,
            ) && !spelled_alike(have, handle.serial->0))))
            &&& count == Ok::<usize, DdcErrorView>(1usize)
        },
        opened(handle, looks, edid, count) matches Ok(gdi) ==> (looks.last() matches Ok(entries)
            && (located(entries, handle.backend_id) matches Ok(entry) && gdi == entry.gdi_name)),
{
    if handle.serial is Some && edid is Some && (edid->0).best_serial() is Some {
        law_nothing_but_case_is_ignored((edid->0).best_serial()->0, handle.serial->0);
    }
}

/// A monitor's own answer is what a reading says: an input where one came back,
/// no such feature where the monitor said so, and else that it could not be
/// read, and why.
pub proof fn law_a_reading_says_what_came_back(last: Result<u32, DdcErrorView>)
    ensures
        last matches Ok(reply) ==> {
            &&& reply % 256 != 0 ==> (reading_of(last) matches InputReadingView::Value(code)
                && code.0 == reply % 256)
            &&& reply % 256 == 0 ==> reading_of(last) is ReadFailed
        },
        last matches Err(e) ==> {
            &&& e.code == 0xC0262584 ==> reading_of(last) is Unsupported
            &&& e.code != 0xC0262584 ==> (reading_of(last) matches InputReadingView::ReadFailed {
                detail,
            } && e.detail.is_prefix_of(detail))
        },
{
    if last is Err && (last->Err_0).code != 0xC0262584 {
        let e = last->Err_0;
        if let InputReadingView::ReadFailed { detail } = reading_of(last) {
            assert(e.detail =~= detail.subrange(0, e.detail.len() as int));
        }
    }
}

/// A write is accepted exactly where Windows reported no failure, and a failed
/// one says what Windows said.
pub proof fn law_a_write_is_accepted_where_none_failed(last: Result<(), DdcErrorView>)
    ensures
        outcome_of(last) is Accepted <==> last is Ok,
        last matches Err(e) ==> (outcome_of(last) matches WriteOutcomeView::Failed { detail }
            && e.detail.is_prefix_of(detail)),
{
    if last is Err {
        let e = last->Err_0;
        if let WriteOutcomeView::Failed { detail } = outcome_of(last) {
            assert(e.detail =~= detail.subrange(0, e.detail.len() as int));
        }
    }
}

/// Every display found is listed once, in order, under the id of its path and
/// with what its own EDID says.
pub proof fn law_every_display_found_is_listed(
    found: Seq<TopologyEntryView>,
    edids: Seq<Option<EdidInfoView>>,
)
    requires
        found.len() == edids.len() < u32::MAX,
    ensures
        discovery(found, edids).len() == found.len(),
        forall|i: int|
            0 <= i < found.len() ==> {
                let m = (#[trigger] discovery(found, edids)[i]).identity;
                &&& m.backend_id == id_of(found[i].device_path)
                &&& m.discovery_index == Some((i + 1) as u32)
                &&& m.transport is Internal <==> found[i].internal
                &&& m.serial == (match edids[i] {
                    Some(e) => e.best_serial(),
                    None => None,
                })
            },
{
}

/// The displays named as silent are the switchable ones that did not answer:
/// none of them is left out, and there is one name for each.
pub proof fn law_the_silent_are_those_that_did_not_answer(
    found: Seq<DetectedMonitorView>,
    answered: Seq<bool>,
)
    requires
        found.len() <= answered.len(),
    ensures
        silent_displays(found, answered).len() <= found.len(),
        silent_displays(found, answered).len() == 0 <==> forall|i: int|
            0 <= i < found.len() && (#[trigger] found[i]).switchable() ==> answered[i],
        forall|i: int|
            0 <= i < found.len() && (#[trigger] found[i]).switchable() && !answered[i]
                ==> silent_displays(found, answered).contains(found[i].identity.description()),
    decreases found.len(),
{
    if found.len() > 0 {
        let front = found.drop_last();
        let last = found.len() - 1;
        law_the_silent_are_those_that_did_not_answer(front, answered);
        let told = silent_displays(found, answered);
        let before = silent_displays(front, answered);
        assert(found[last] == found.last());
        assert forall|i: int|
            0 <= i < found.len() && (#[trigger] found[i]).switchable()
                && !answered[i] implies told.contains(found[i].identity.description()) by {
            if i < last {
                assert(front[i] == found[i]);
                let k = choose|k: int|
                    0 <= k < before.len() && before[k] == found[i].identity.description();
                assert(told[k] == before[k]);
            } else {
                assert(told[told.len() - 1] == found[i].identity.description());
            }
        }
        if forall|i: int|
            0 <= i < found.len() && (#[trigger] found[i]).switchable() ==> answered[i] {
            assert forall|i: int|
                0 <= i < front.len() && (#[trigger] front[i]).switchable() implies answered[i] by {
                assert(front[i] == found[i]);
            }
        } else {
            let i = choose|i: int|
                0 <= i < found.len() && (#[trigger] found[i]).switchable() && !answered[i];
            assert(told.contains(found[i].identity.description()));
        }
    }
}

/// Windows' own words for a failure are kept, with the code it gave.
pub proof fn law_a_failure_is_told_in_windows_words(what: Seq<char>, code: u32, message: Seq<char>)
    ensures
        windows_error(what, code, message).code == code,
        what.is_prefix_of(windows_error(what, code, message).detail),
        has_text(windows_error(what, code, message).detail, trimmed(message)),
        has_text(windows_error(what, code, message).detail, "0x"@ + hex_padded(code as nat, 8)),
{
    let number = "0x"@ + hex_padded(code as nat, 8);
    let said = trimmed(message);
    let detail = windows_error(what, code, message).detail;
    assert(what =~= detail.subrange(0, what.len() as int));
    if said.len() == 0 {
        lemma_has_text_between(what + " failed (Windows error "@, number, ")"@);
        assert(detail.subrange(0, 0) =~= said);
        assert(occurs_at(detail, said, 0));
    } else {
        lemma_has_text_between(what + " failed: "@ + said + " ("@, number, ")"@);
        lemma_has_text_between(what + " failed: "@, said, " ("@ + number + ")"@);
        assert(what + " failed: "@ + said + (" ("@ + number + ")"@) =~= detail);
    }
}

} // verus!

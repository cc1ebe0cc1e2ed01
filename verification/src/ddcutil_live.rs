//! `ddcutil` as a backend: the adapter together with what runs it.

use vstd::prelude::*;

use crate::backend::{
    capabilities_result, monitors_result, reading_answer, write_answer, wrote_only, BackendError,
    BackendHealth, BackendHealthView, Exchange, MonitorBackend,
};
use crate::console::{
    ddcutil_changes, lemma_no_writes, lemma_writes_add, writes, Console, DdcutilConsole, ToolCall,
};
use crate::ddcutil::{
    capabilities_asked, capability_calls, device_findings, displays_from, lemma_asks,
    lemma_asks_anything, monitor_findings, monitor_from, read_asked, read_calls, select_calls, selector_of, version_finding, version_from,
    write_asked, write_calls, DdcutilBackend,
};
use crate::ddcutil_parse::DetectedDisplayView;
use crate::proc::{CommandRun, ProcError};
use crate::runner::{asked_so, text_result, RunAnswer};
use crate::types::{
    DetectedMonitor, DetectedMonitorView, InputCapabilities, InputCode, InputReading,
    MonitorHandle, MonitorHandleView, WriteOutcome,
};

verus! {

/// How many of the devices cannot be opened, `openable` telling of each
/// whether it can.
pub open spec fn shut(openable: Seq<bool>) -> nat
    decreases openable.len(),
{
    if openable.len() == 0 {
        0
    } else {
        shut(openable.drop_last()) + if openable.last() {
            0nat
        } else {
            1nat
        }
    }
}

/// How many devices there are, and how many of them cannot be opened.
pub fn count_shut(openable: &Vec<bool>) -> (r: (usize, usize))
    ensures
        r.0 == openable@.len(),
        r.1 == shut(openable@),
        r.1 <= r.0,
{
    let mut closed: usize = 0;
    let mut i: usize = 0;
    assert(openable@.take(0) =~= Seq::<bool>::empty());
    while i < openable.len()
        invariant
            i <= openable@.len(),
            closed == shut(openable@.take(i as int)),
            closed <= i,
        decreases openable@.len() - i,
    {
        proof {
            let next = openable@.take(i as int + 1);
            assert(next.drop_last() =~= openable@.take(i as int));
            assert(next.last() == openable@[i as int]);
        }
        if !openable[i] {
            closed += 1;
        }
        i += 1;
    }
    assert(openable@.take(i as int) =~= openable@);
    (openable.len(), closed)
}

/// What a look at the I²C devices counts.
pub open spec fn devices_counted(looked: Option<Seq<bool>>) -> Option<(usize, usize)> {
    match looked {
        Some(openable) => Some((openable.len() as usize, shut(openable) as usize)),
        None => None,
    }
}

pub open spec fn look_result(looked: Option<Vec<bool>>) -> Option<Seq<bool>> {
    match looked {
        Some(v) => Some(v@),
        None => None,
    }
}

/// A look at the I²C devices gave this.
pub open spec fn looked_at<D: Fn() -> Option<Vec<bool>>>(look: D, seen: Option<Seq<bool>>) -> bool {
    exists|v: Option<Vec<bool>>| #[trigger] call_ensures(look, (), v) && look_result(v) == seen
}

/// What `detect` answered, as monitors.
pub open spec fn monitors_from(answer: RunAnswer) -> Result<
    Seq<DetectedMonitorView>,
    crate::backend::BackendErrorView,
> {
    match displays_from(answer) {
        Ok(displays) => Ok(displays.map_values(|d: DetectedDisplayView| monitor_from(d))),
        Err(e) => Err(e),
    }
}

/// What is asked for a health check, in order: what the tool says of itself, a
/// look at the devices, and what it detects.
pub open spec fn health_calls(
    version: RunAnswer,
    seen: Option<Seq<bool>>,
    detect: RunAnswer,
) -> Seq<
    ToolCall,
> {
    seq![
        ToolCall::Ran(seq!["--version"@], version),
        ToolCall::LookedAt(seen),
        ToolCall::Ran(seq!["detect"@], detect),
    ]
}

/// A health check was made like this, and nothing else was done.
pub open spec fn checked(
    before: Seq<ToolCall>,
    after: Seq<ToolCall>,
    program: Seq<char>,
    version: RunAnswer,
    seen: Option<Seq<bool>>,
    detect: RunAnswer,
    health: BackendHealthView,
) -> bool {
    &&& after == before + health_calls(version, seen, detect)
    &&& health == BackendHealthView {
        backend: "ddcutil-cli"@,
        tool_path: Some(program),
        tool_version: match version_from(version) {
            Ok(v) => Some(v),
            Err(_) => None,
        },
        findings: seq![version_finding(version_from(version))] + device_findings(
            devices_counted(seen),
        ) + monitor_findings(monitors_from(detect)),
    }
}

/// `ddcutil` with what runs it.
pub struct LiveDdcutil<R: Fn(&Vec<String>) -> Result<CommandRun, ProcError>, D: Fn() -> Option<
    Vec<bool>,
>> {
    tool: DdcutilBackend,
    console: DdcutilConsole<R, D>,
    exchanged: Ghost<Seq<Exchange>>,
}

impl<R: Fn(&Vec<String>) -> Result<CommandRun, ProcError>, D: Fn() -> Option<Vec<bool>>> LiveDdcutil<
    R,
    D,
> {
    pub closed spec fn program(&self) -> Seq<char> {
        self.tool.program()
    }

    /// Everything that was asked and done so far.
    pub closed spec fn calls(&self) -> Seq<ToolCall> {
        self.console.calls()
    }

    pub fn new(tool: DdcutilBackend, console: DdcutilConsole<R, D>) -> (r: Self)
        ensures
            r.program() == tool.program(),
            r.calls() == console.calls(),
            r.heard() == Seq::<Exchange>::empty(),
    {
        LiveDdcutil { tool, console, exchanged: Ghost(Seq::empty()) }
    }
}

impl<R: Fn(&Vec<String>) -> Result<CommandRun, ProcError>, D: Fn() -> Option<
    Vec<bool>,
>> MonitorBackend for LiveDdcutil<R, D> {
    open spec fn sent(&self) -> Seq<(Seq<char>, InputCode)> {
        writes(self.calls())
    }

    closed spec fn heard(&self) -> Seq<Exchange> {
        self.exchanged@
    }

    fn name(&self) -> (r: &str)
        ensures
            r@ == "ddcutil-cli"@,
    {
        self.tool.name()
    }

    fn health(&mut self) -> (r: BackendHealth)
        ensures
            final(self).program() == old(self).program(),
            exists|version: RunAnswer, seen: Option<Seq<bool>>, detect: RunAnswer|
                #[trigger] checked(
                    old(self).calls(),
                    final(self).calls(),
                    old(self).program(),
                    version,
                    seen,
                    detect,
                    r.deep_view(),
                ),
    {
        let ghost before = self.console.calls();
        let said = self.tool.version(&mut self.console);
        let ghost at = self.console.calls();
        let ghost version = choose|answer: RunAnswer|
            #[trigger] asked_so(before, at, seq!["--version"@], answer) && text_result(said)
                == version_from(answer);
        let looked = self.console.look();
        let ghost between = self.console.calls();
        let ghost seen = look_result(looked);
        let counted: Option<(usize, usize)> = match &looked {
            Some(openable) => Some(count_shut(openable)),
            None => None,
        };
        let found = self.tool.discover(&mut self.console);
        let ghost after = self.console.calls();
        let ghost detect = choose|answer: RunAnswer|
            #[trigger] asked_so(
                between,
                after,
                seq!["detect"@],
                answer,
            ) && monitors_result(found) == monitors_from(answer);
        let r = self.tool.health(said, counted, found);
        proof {
            assert(after =~= before + health_calls(version, seen, detect));
            lemma_no_writes(before, health_calls(version, seen, detect));
        }
        self.exchanged = Ghost(self.exchanged@.push(Exchange::Checked(r.deep_view())));
        assert(checked(
            old(self).calls(),
            self.calls(),
            old(self).program(),
            version,
            seen,
            detect,
            r.deep_view(),
        ));
        r
    }

    fn discover(&mut self) -> (r: Result<Vec<DetectedMonitor>, BackendError>)
        ensures
            final(self).program() == old(self).program(),
            exists|answer: RunAnswer|
                #[trigger] asked_so(
                    old(self).calls(),
                    final(self).calls(),
                    seq!["detect"@],
                    answer,
                ) && monitors_result(r) == monitors_from(answer),
    {
        let ghost before = self.console.calls();
        let r = self.tool.discover(&mut self.console);
        proof {
            let answer = choose|answer: RunAnswer|
                #[trigger] asked_so(
                    before,
                    self.console.calls(),
                    seq!["detect"@],
                    answer,
                ) && monitors_result(r) == monitors_from(answer);
            let calls = seq![ToolCall::Ran(seq!["detect"@], answer)];
            assert(self.console.calls() =~= before + calls);
            lemma_no_writes(before, calls);
        }
        self.exchanged = Ghost(self.exchanged@.push(Exchange::Discovered(monitors_result(r))));
        r
    }

    fn input_capabilities(&mut self, monitor: &MonitorHandle) -> (r: Result<
        InputCapabilities,
        BackendError,
    >)
        ensures
            final(self).program() == old(self).program(),
            exists|detect: RunAnswer, full: RunAnswer, terse: RunAnswer|
                #[trigger] capabilities_asked(
                    old(self).calls(),
                    final(self).calls(),
                    monitor.deep_view(),
                    detect,
                    full,
                    terse,
                    capabilities_result(r),
                ),
    {
        let ghost h = monitor.deep_view();
        let ghost before = self.console.calls();
        let r = self.tool.input_capabilities(monitor, &mut self.console);
        let ghost after = self.console.calls();
        proof {
            let (detect, full, terse) = choose|
                detect: RunAnswer,
                full: RunAnswer,
                terse: RunAnswer,
            |
                #[trigger] capabilities_asked(
                    before,
                    after,
                    h,
                    detect,
                    full,
                    terse,
                    capabilities_result(r),
                );
            lemma_no_writes(before, capability_calls(h, detect, full, terse));
            assert(capabilities_asked(
                before,
                after,
                h,
                detect,
                full,
                terse,
                capabilities_result(r),
            ));
        }
        self.exchanged = Ghost(
            self.exchanged@.push(Exchange::Asked(monitor.deep_view(), capabilities_result(r))),
        );
        r
    }

    fn read_input(&mut self, monitor: &MonitorHandle) -> (r: Result<InputReading, BackendError>)
        ensures
            final(self).program() == old(self).program(),
            exists|detect: RunAnswer, answer: RunAnswer|
                #[trigger] read_asked(
                    old(self).calls(),
                    final(self).calls(),
                    monitor.deep_view(),
                    detect,
                    answer,
                    reading_answer(r),
                ),
    {
        let ghost h = monitor.deep_view();
        let ghost before = self.console.calls();
        let r = self.tool.read_input(monitor, &mut self.console);
        let ghost after = self.console.calls();
        proof {
            let (detect, answer) = choose|detect: RunAnswer, answer: RunAnswer|
                #[trigger] read_asked(
                    before,
                    after,
                    h,
                    detect,
                    answer,
                    reading_answer(r),
                );
            lemma_no_writes(before, read_calls(h, detect, answer));
            assert(read_asked(before, after, h, detect, answer, reading_answer(r)));
        }
        self.exchanged = Ghost(
            self.exchanged@.push(Exchange::Read(monitor.deep_view(), reading_answer(r))),
        );
        r
    }

    fn set_input(&mut self, monitor: &MonitorHandle, value: InputCode) -> (r: Result<
        WriteOutcome,
        BackendError,
    >)
        ensures
            final(self).program() == old(self).program(),
            exists|detect: RunAnswer, answer: RunAnswer|
                #[trigger] write_asked(
                    old(self).calls(),
                    final(self).calls(),
                    monitor.deep_view(),
                    value,
                    detect,
                    answer,
                    write_answer(r),
                ),
    {
        let ghost h = monitor.deep_view();
        let ghost before = self.console.calls();
        let r = self.tool.set_input(monitor, value, &mut self.console);
        let ghost after = self.console.calls();
        proof {
            let (detect, answer) = choose|detect: RunAnswer, answer: RunAnswer|
                #[trigger] write_asked(
                    before,
                    after,
                    h,
                    value,
                    detect,
                    answer,
                    write_answer(r),
                );
            assert(write_asked(before, after, h, value, detect, answer, write_answer(r)));
            law_one_write_at_most(h, value, detect, answer);
            lemma_writes_add(before, write_calls(h, value, detect, answer));
            assert(wrote_only(
                writes(before),
                writes(after),
                monitor.backend_id@,
                value,
            ));
        }
        self.exchanged = Ghost(
            self.exchanged@.push(
                Exchange::Wrote(monitor.deep_view(), value, write_answer(r)),
            ),
        );
        r
    }
}

// ---------------------------------------------------------------------------
// What the backend promises
// ---------------------------------------------------------------------------

/// A write goes out once, and only for a display that was selected. A display
/// that cannot be selected is sent nothing.
pub proof fn law_one_write_at_most(
    handle: MonitorHandleView,
    value: InputCode,
    detect: RunAnswer,
    answer: RunAnswer,
)
    ensures
        writes(write_calls(handle, value, detect, answer)) == (if selector_of(
            handle,
            detect,
        ) is Ok {
            seq![(handle.backend_id, value)]
        } else {
            Seq::empty()
        }),
{
    let first = select_calls(handle, detect);
    let calls = write_calls(handle, value, detect, answer);
    let none: Seq<ToolCall> = Seq::empty();
    lemma_no_writes(none, first);
    if selector_of(handle, detect) is Ok {
        assert(calls.drop_last() =~= first);
        assert(writes(calls) =~= seq![(handle.backend_id, value)]);
    } else {
        assert(calls =~= first);
    }
}

/// These calls run no command that writes a feature.
pub open spec fn only_asks(calls: Seq<ToolCall>) -> bool {
    forall|i: int|
        0 <= i < calls.len() ==> match #[trigger] calls[i] {
            ToolCall::Ran(args, _) => !ddcutil_changes(args),
            ToolCall::Wrote { .. } => false,
            _ => true,
        }
}

/// What is only read changes nothing: a health check, reading a monitor and
/// asking for its capabilities run no command that writes, and send no write.
pub proof fn law_reading_writes_nothing(
    handle: MonitorHandleView,
    version: RunAnswer,
    seen: Option<Seq<bool>>,
    detect: RunAnswer,
    full: RunAnswer,
    terse: RunAnswer,
    answer: RunAnswer,
)
    ensures
        only_asks(health_calls(version, seen, detect)),
        only_asks(capability_calls(handle, detect, full, terse)),
        only_asks(read_calls(handle, detect, answer)),
        writes(health_calls(version, seen, detect)).len() == 0,
        writes(capability_calls(handle, detect, full, terse)).len() == 0,
        writes(read_calls(handle, detect, answer)).len() == 0,
{
    let none: Seq<ToolCall> = Seq::empty();
    lemma_asks(handle, detect);
    lemma_asks_anything();
    lemma_no_writes(none, health_calls(version, seen, detect));
    lemma_no_writes(none, capability_calls(handle, detect, full, terse));
    lemma_no_writes(none, read_calls(handle, detect, answer));
}

/// The devices that cannot be opened are counted one by one.
pub proof fn law_every_shut_device_is_counted(openable: Seq<bool>)
    ensures
        shut(openable) == openable.filter(|open: bool| !open).len(),
        shut(openable) <= openable.len(),
        shut(openable) == openable.len() <==> forall|i: int|
            0 <= i < openable.len() ==> !#[trigger] openable[i],
        shut(openable) == 0 <==> forall|i: int| 0 <= i < openable.len() ==> #[trigger] openable[i],
    decreases openable.len(),
{
    reveal(Seq::filter);
    if openable.len() > 0 {
        let front = openable.drop_last();
        law_every_shut_device_is_counted(front);
        assert(openable[openable.len() - 1] == openable.last());
        assert forall|i: int| 0 <= i < front.len() implies front[i] == openable[i] by {}
        if forall|i: int| 0 <= i < openable.len() ==> !#[trigger] openable[i] {
            assert forall|i: int| 0 <= i < front.len() implies !#[trigger] front[i] by {
                assert(front[i] == openable[i]);
            }
        }
        if forall|i: int| 0 <= i < front.len() ==> !#[trigger] front[i] {
            assert forall|i: int| 0 <= i < openable.len() - 1 implies !#[trigger] openable[i] by {
                assert(front[i] == openable[i]);
            }
        }
        if forall|i: int| 0 <= i < openable.len() ==> #[trigger] openable[i] {
            assert forall|i: int| 0 <= i < front.len() implies #[trigger] front[i] by {
                assert(front[i] == openable[i]);
            }
        }
        if forall|i: int| 0 <= i < front.len() ==> #[trigger] front[i] {
            assert forall|i: int| 0 <= i < openable.len() - 1 implies #[trigger] openable[i] by {
                assert(front[i] == openable[i]);
            }
        }
    }
}

/// Every display that ddcutil detected is reported, in order, under its own id.
pub proof fn law_every_detected_display_is_reported(answer: RunAnswer)
    ensures
        displays_from(answer) matches Ok(displays) ==> (monitors_from(answer) matches Ok(all) && {
            &&& all.len() == displays.len()
            &&& forall|i: int|
                0 <= i < all.len() ==> (#[trigger] all[i]).identity.backend_id
                    == displays[i].stable_id() && all[i].raw == displays[i].raw
        }),
        displays_from(answer) is Err ==> monitors_from(answer) is Err,
{
}

} // verus!

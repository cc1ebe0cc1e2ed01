//! The Power Display CLI as a backend: the adapter together with what runs it.

use vstd::prelude::*;

use crate::backend::{
    capabilities_result, monitors_result, reading_answer, write_answer, wrote_only, BackendError,
    BackendHealth, BackendHealthView, Exchange, MonitorBackend,
};
use crate::console::{
    lemma_no_writes, lemma_writes_add, power_display_changes, writes, Console, PowerDisplayConsole,
    ToolCall,
};
use crate::edid::{EdidInfo, EdidInfoView};
use crate::powertoys::{
    attempts, capabilities_args, capabilities_from, discovered, lemma_asks, list_calls, list_result,
    monitor_findings, read_args, reading_from, version_finding, version_from, write_calls,
    write_tried, PowerDisplayBackend, WRITE_ATTEMPTS,
};
use crate::proc::{CommandRun, ProcError};
use crate::runner::{asked_so, text_result, RunAnswer};
use crate::types::{
    DetectedMonitor, InputCapabilities, InputCode, InputReading, MonitorHandle, WriteOutcome,
};

verus! {

/// What is asked for a health check, in order: what the tool says of itself and
/// what it lists.
pub open spec fn health_calls(
    version: RunAnswer,
    list: RunAnswer,
    edids: Seq<Option<EdidInfoView>>,
) -> Seq<ToolCall> {
    seq![ToolCall::Ran(seq!["--version"@], version)] + list_calls(list, edids)
}

/// A health check was made like this, and nothing else was done.
pub open spec fn checked(
    before: Seq<ToolCall>,
    after: Seq<ToolCall>,
    program: Seq<char>,
    version: RunAnswer,
    list: RunAnswer,
    edids: Seq<Option<EdidInfoView>>,
    health: BackendHealthView,
) -> bool {
    &&& after == before + health_calls(version, list, edids)
    &&& health == BackendHealthView {
        backend: "powertoys-cli"@,
        tool_path: Some(program),
        tool_version: match version_from(version) {
            Ok(v) => Some(v),
            Err(_) => None,
        },
        findings: seq![version_finding(version_from(version))] + monitor_findings(
            list_result(list, edids),
        ),
    }
}

/// The Power Display CLI with what runs it.
pub struct LivePowerDisplay<
    R: Fn(&Vec<String>) -> Result<CommandRun, ProcError>,
    E: Fn(&String) -> Option<EdidInfo>,
    P: Fn(u64),
> {
    tool: PowerDisplayBackend,
    console: PowerDisplayConsole<R, E, P>,
    exchanged: Ghost<Seq<Exchange>>,
}

impl<
    R: Fn(&Vec<String>) -> Result<CommandRun, ProcError>,
    E: Fn(&String) -> Option<EdidInfo>,
    P: Fn(u64),
> LivePowerDisplay<R, E, P> {
    pub closed spec fn program(&self) -> Seq<char> {
        self.tool.program()
    }

    /// Everything that was asked and done so far.
    pub closed spec fn calls(&self) -> Seq<ToolCall> {
        self.console.calls()
    }

    pub fn new(tool: PowerDisplayBackend, console: PowerDisplayConsole<R, E, P>) -> (r: Self)
        ensures
            r.program() == tool.program(),
            r.calls() == console.calls(),
            r.heard() == Seq::<Exchange>::empty(),
    {
        LivePowerDisplay { tool, console, exchanged: Ghost(Seq::empty()) }
    }
}

impl<
    R: Fn(&Vec<String>) -> Result<CommandRun, ProcError>,
    E: Fn(&String) -> Option<EdidInfo>,
    P: Fn(u64),
> MonitorBackend for LivePowerDisplay<R, E, P> {
    open spec fn sent(&self) -> Seq<(Seq<char>, InputCode)> {
        writes(self.calls())
    }

    closed spec fn heard(&self) -> Seq<Exchange> {
        self.exchanged@
    }

    fn name(&self) -> (r: &str)
        ensures
            r@ == "powertoys-cli"@,
    {
        self.tool.name()
    }

    fn health(&mut self) -> (r: BackendHealth)
        ensures
            final(self).program() == old(self).program(),
            exists|version: RunAnswer, list: RunAnswer, edids: Seq<Option<EdidInfoView>>|
                #[trigger] checked(
                    old(self).calls(),
                    final(self).calls(),
                    old(self).program(),
                    version,
                    list,
                    edids,
                    r.deep_view(),
                ),
    {
        let ghost before = self.console.calls();
        let said = self.tool.version(&mut self.console);
        let ghost at = self.console.calls();
        let ghost version = choose|answer: RunAnswer|
            #[trigger] asked_so(before, at, seq!["--version"@], answer) && text_result(said)
                == version_from(answer);
        let found = self.tool.discover(&mut self.console);
        let ghost monitors = monitors_result(found);
        let ghost (list, edids) = choose|list: RunAnswer, edids: Seq<Option<EdidInfoView>>|
            #[trigger] discovered(at, self.console.calls(), list, edids, monitors);
        let r = self.tool.health(said, found);
        proof {
            assert(self.console.calls() =~= before + health_calls(version, list, edids));
            lemma_no_writes(before, health_calls(version, list, edids));
            assert(checked(
                before,
                self.console.calls(),
                self.tool.program(),
                version,
                list,
                edids,
                r.deep_view(),
            ));
        }
        self.exchanged = Ghost(self.exchanged@.push(Exchange::Checked(r.deep_view())));
        r
    }

    fn discover(&mut self) -> (r: Result<Vec<DetectedMonitor>, BackendError>)
        ensures
            final(self).program() == old(self).program(),
            exists|answer: RunAnswer, edids: Seq<Option<EdidInfoView>>|
                #[trigger] discovered(
                    old(self).calls(),
                    final(self).calls(),
                    answer,
                    edids,
                    monitors_result(r),
                ),
    {
        let ghost before = self.console.calls();
        let r = self.tool.discover(&mut self.console);
        proof {
            let (answer, edids) = choose|answer: RunAnswer, edids: Seq<Option<EdidInfoView>>|
                #[trigger] discovered(
                    before,
                    self.console.calls(),
                    answer,
                    edids,
                    monitors_result(r),
                );
            lemma_no_writes(before, list_calls(answer, edids));
        }
        self.exchanged = Ghost(self.exchanged@.push(Exchange::Discovered(monitors_result(r))));
        r
    }

    fn input_capabilities(&mut self, monitor: &MonitorHandle) -> (r: Result<
        InputCapabilities,
        BackendError,
    >)
        ensures
            final(self).program() == old(self).program(),
            exists|answer: RunAnswer|
                #[trigger] asked_so(
                    old(self).calls(),
                    final(self).calls(),
                    capabilities_args(monitor.backend_id@),
                    answer,
                ) && capabilities_result(r) == capabilities_from(answer),
    {
        let ghost before = self.console.calls();
        let r = self.tool.input_capabilities(monitor, &mut self.console);
        proof {
            let args = capabilities_args(monitor.backend_id@);
            let answer = choose|answer: RunAnswer|
                #[trigger] asked_so(
                    before,
                    self.console.calls(),
                    args,
                    answer,
                ) && capabilities_result(r) == capabilities_from(answer);
            let calls = seq![ToolCall::Ran(args, answer)];
            assert(self.console.calls() =~= before + calls);
            lemma_no_writes(before, calls);
        }
        self.exchanged = Ghost(
            self.exchanged@.push(Exchange::Asked(monitor.deep_view(), capabilities_result(r))),
        );
        r
    }

    fn read_input(&mut self, monitor: &MonitorHandle) -> (r: Result<InputReading, BackendError>)
        ensures
            final(self).program() == old(self).program(),
            exists|answer: RunAnswer|
                #[trigger] asked_so(
                    old(self).calls(),
                    final(self).calls(),
                    read_args(monitor.backend_id@),
                    answer,
                ) && reading_answer(r) == reading_from(answer),
    {
        let ghost before = self.console.calls();
        let r = self.tool.read_input(monitor, &mut self.console);
        proof {
            let args = read_args(monitor.backend_id@);
            let answer = choose|answer: RunAnswer|
                #[trigger] asked_so(
                    before,
                    self.console.calls(),
                    args,
                    answer,
                ) && reading_answer(r) == reading_from(answer);
            let calls = seq![ToolCall::Ran(args, answer)];
            assert(self.console.calls() =~= before + calls);
            lemma_no_writes(before, calls);
        }
        self.exchanged = Ghost(
            self.exchanged@.push(Exchange::Read(monitor.deep_view(), reading_answer(r))),
        );
        r
    }

    fn set_input(&mut self, monitor: &MonitorHandle, value: InputCode) -> (r: Result<
        WriteOutcome,
        BackendError,
    >)
        ensures
            final(self).program() == old(self).program(),
            exists|answers: Seq<RunAnswer>|
                #[trigger] write_tried(
                    old(self).calls(),
                    final(self).calls(),
                    monitor.deep_view(),
                    value,
                    answers,
                    write_answer(r),
                ),
    {
        let ghost h = monitor.deep_view();
        let ghost before = self.console.calls();
        let r = self.tool.set_input(monitor, value, &mut self.console);
        proof {
            let answers = choose|answers: Seq<RunAnswer>|
                #[trigger] write_tried(
                    before,
                    self.console.calls(),
                    h,
                    value,
                    answers,
                    write_answer(r),
                );
            law_every_attempt_is_the_same_write(h.backend_id, value, answers);
            lemma_writes_add(before, write_calls(h.backend_id, value, answers));
            assert(wrote_only(
                writes(before),
                writes(self.console.calls()),
                monitor.backend_id@,
                value,
            ));
        }
        self.exchanged = Ghost(
            self.exchanged@.push(
                Exchange::Wrote(monitor.deep_view(), value, write_answer(r)),
            ),
        );
        r
    }
}

// ---------------------------------------------------------------------------
// What the backend promises
// ---------------------------------------------------------------------------

/// A write goes out once for each attempt, each time the same code to the same
/// monitor.
pub proof fn law_every_attempt_is_the_same_write(
    id: Seq<char>,
    value: InputCode,
    answers: Seq<RunAnswer>,
)
    ensures
        writes(write_calls(id, value, answers)) == Seq::new(answers.len(), |i: int| (id, value)),
        attempts(answers) ==> 1 <= answers.len() <= WRITE_ATTEMPTS,
    decreases answers.len(),
{
    let calls = write_calls(id, value, answers);
    if answers.len() > 0 {
        let front = write_calls(id, value, answers.drop_last());
        law_every_attempt_is_the_same_write(id, value, answers.drop_last());
        if answers.len() == 1 {
            assert(calls.drop_last() =~= front);
        } else {
            assert(calls.drop_last().drop_last() =~= front);
            assert(writes(calls.drop_last()) == writes(front));
        }
    }
    assert(writes(calls) =~= Seq::new(answers.len(), |i: int| (id, value)));
}

/// These calls run no command that writes a setting.
pub open spec fn only_asks(calls: Seq<ToolCall>) -> bool {
    forall|i: int|
        0 <= i < calls.len() ==> match #[trigger] calls[i] {
            ToolCall::Ran(args, _) => !power_display_changes(args),
            ToolCall::Wrote { .. } => false,
            _ => true,
        }
}

/// What is only read changes nothing: a health check, a list, reading a monitor
/// and asking for its capabilities run no command that writes, and send no
/// write.
pub proof fn law_reading_writes_nothing(
    id: Seq<char>,
    version: RunAnswer,
    list: RunAnswer,
    edids: Seq<Option<EdidInfoView>>,
    answer: RunAnswer,
)
    ensures
        only_asks(health_calls(version, list, edids)),
        only_asks(list_calls(list, edids)),
        only_asks(seq![ToolCall::Ran(read_args(id), answer)]),
        only_asks(seq![ToolCall::Ran(capabilities_args(id), answer)]),
        writes(health_calls(version, list, edids)).len() == 0,
        writes(list_calls(list, edids)).len() == 0,
        writes(seq![ToolCall::Ran(read_args(id), answer)]).len() == 0,
        writes(seq![ToolCall::Ran(capabilities_args(id), answer)]).len() == 0,
{
    let none: Seq<ToolCall> = Seq::empty();
    lemma_asks(id);
    lemma_no_writes(none, health_calls(version, list, edids));
    lemma_no_writes(none, list_calls(list, edids));
    lemma_no_writes(none, seq![ToolCall::Ran(read_args(id), answer)]);
    lemma_no_writes(none, seq![ToolCall::Ran(capabilities_args(id), answer)]);
}

} // verus!

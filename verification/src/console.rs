//! What runs the command-line tools.
//!
//! Only the system can do it, so each way to ask it is handed in. Every command
//! that is run, and everything else that is asked, is kept in a record, in
//! order. A command that changes something is given apart from those that only
//! ask.

use vstd::prelude::*;

use crate::ddcutil_live::{look_result, looked_at};
use crate::edid::{EdidInfo, EdidInfoView};
use crate::powertoys::{looked_up, opt_edid};
use crate::proc::{ran, run_answer, runs_anything, CommandRun, ProcError};
use crate::runner::RunAnswer;
use crate::text::texts;
use crate::types::InputCode;

verus! {

/// One thing that was asked or done, with what came back.
pub enum ToolCall {
    /// The tool was run to ask something.
    Ran(Seq<Seq<char>>, RunAnswer),
    /// The tool was run to write an input.
    Wrote {
        /// The monitor it was meant for.
        id: Seq<char>,
        code: InputCode,
        args: Seq<Seq<char>>,
        answer: RunAnswer,
    },
    /// A number of milliseconds went by.
    Waited(u64),
    /// The devices were looked at.
    LookedAt(Option<Seq<bool>>),
    /// The EDID of a device path was looked up.
    Identified(Seq<char>, Option<EdidInfoView>),
}

/// The writes among these calls: the monitor each was meant for, and the code.
pub open spec fn writes(calls: Seq<ToolCall>) -> Seq<(Seq<char>, InputCode)>
    decreases calls.len(),
{
    if calls.len() == 0 {
        Seq::empty()
    } else {
        let front = writes(calls.drop_last());
        match calls.last() {
            ToolCall::Wrote { id, code, .. } => front.push((id, code)),
            _ => front,
        }
    }
}

pub proof fn lemma_writes_add(a: Seq<ToolCall>, b: Seq<ToolCall>)
    ensures
        writes(a + b) == writes(a) + writes(b),
    decreases b.len(),
{
    if b.len() == 0 {
        assert(a + b =~= a);
        assert(writes(a) + writes(b) =~= writes(a));
    } else {
        lemma_writes_add(a, b.drop_last());
        assert((a + b).drop_last() =~= a + b.drop_last());
        assert((a + b).last() == b.last());
        assert(writes(a + b) =~= writes(a) + writes(b));
    }
}

/// Calls of which none writes add no write.
pub proof fn lemma_no_writes(before: Seq<ToolCall>, calls: Seq<ToolCall>)
    requires
        forall|i: int| 0 <= i < calls.len() ==> !(#[trigger] calls[i] is Wrote),
    ensures
        writes(calls) == Seq::<(Seq<char>, InputCode)>::empty(),
        writes(before + calls) == writes(before),
    decreases calls.len(),
{
    if calls.len() > 0 {
        assert forall|i: int| 0 <= i < calls.drop_last().len() implies !(
        #[trigger] calls.drop_last()[i] is Wrote) by {
            assert(calls.drop_last()[i] == calls[i]);
        }
        lemma_no_writes(before, calls.drop_last());
        assert(!(calls[calls.len() - 1] is Wrote));
    }
    lemma_writes_add(before, calls);
    assert(writes(before) + writes(calls) =~= writes(before));
}

/// Runs a tool and keeps a record.
pub trait Console {
    /// Everything that was asked and done so far.
    spec fn calls(&self) -> Seq<ToolCall>;

    /// With these arguments the tool writes a feature.
    spec fn changes(args: Seq<Seq<char>>) -> bool;

    /// Runs the tool to ask something.
    fn run(&mut self, args: &Vec<String>) -> (r: Result<CommandRun, ProcError>)
        requires
            !Self::changes(texts(args@)),
        ensures
            final(self).calls() == old(self).calls().push(
                ToolCall::Ran(texts(args@), run_answer(r)),
            ),
    ;

    /// Runs the tool to write an input. `id` is the monitor it is meant for.
    fn write(&mut self, args: &Vec<String>, id: &str, code: InputCode) -> (r: Result<
        CommandRun,
        ProcError,
    >)
        ensures
            final(self).calls() == old(self).calls().push(
                (ToolCall::Wrote {
                    id: id@,
                    code,
                    args: texts(args@),
                    answer: run_answer(r),
                }),
            ),
    ;
}

// ---------------------------------------------------------------------------
// ddcutil
// ---------------------------------------------------------------------------

/// With these arguments `ddcutil` writes a feature. What stands before the
/// command selects the display.
pub open spec fn ddcutil_changes(args: Seq<Seq<char>>) -> bool {
    &&& args.len() >= 3
    &&& args[args.len() - 3] == "setvcp"@
    &&& args[args.len() - 2] != "capabilities"@
}

/// What runs `ddcutil`. `look` tells of each I²C device whether it can be
/// opened, where there are such devices to be looked for.
pub struct DdcutilConsole<R: Fn(&Vec<String>) -> Result<CommandRun, ProcError>, D: Fn() -> Option<
    Vec<bool>,
>> {
    run: R,
    look: D,
    calls: Ghost<Seq<ToolCall>>,
}

impl<
    R: Fn(&Vec<String>) -> Result<CommandRun, ProcError>,
    D: Fn() -> Option<Vec<bool>>,
> DdcutilConsole<R, D> {
    #[verifier::type_invariant]
    spec fn ready(self) -> bool {
        runs_anything(self.run) && call_requires(self.look, ())
    }

    pub closed spec fn runner(self) -> R {
        self.run
    }

    pub closed spec fn looker(self) -> D {
        self.look
    }

    pub fn new(run: R, look: D) -> (r: Self)
        requires
            runs_anything(run),
            call_requires(look, ()),
        ensures
            r.runner() == run,
            r.looker() == look,
            r.calls() == Seq::<ToolCall>::empty(),
    {
        DdcutilConsole { run, look, calls: Ghost(Seq::empty()) }
    }

    /// Looks at the I²C devices.
    pub fn look(&mut self) -> (r: Option<Vec<bool>>)
        ensures
            final(self).runner() == old(self).runner(),
            final(self).looker() == old(self).looker(),
            final(self).calls() == old(self).calls().push(ToolCall::LookedAt(look_result(r))),
            looked_at(old(self).looker(), look_result(r)),
    {
        proof {
            use_type_invariant(&*self);
        }
        let r = (self.look)();
        assert(looked_at(self.look, look_result(r)));
        self.calls = Ghost(self.calls@.push(ToolCall::LookedAt(look_result(r))));
        r
    }
}

impl<R: Fn(&Vec<String>) -> Result<CommandRun, ProcError>, D: Fn() -> Option<
    Vec<bool>,
>> Console for DdcutilConsole<R, D> {
    closed spec fn calls(&self) -> Seq<ToolCall> {
        self.calls@
    }

    open spec fn changes(args: Seq<Seq<char>>) -> bool {
        ddcutil_changes(args)
    }

    fn run(&mut self, args: &Vec<String>) -> (r: Result<CommandRun, ProcError>)
        ensures
            final(self).runner() == old(self).runner(),
            final(self).looker() == old(self).looker(),
            ran(old(self).runner(), texts(args@), run_answer(r)),
    {
        proof {
            use_type_invariant(&*self);
        }
        let r = (self.run)(args);
        assert(ran(self.run, texts(args@), run_answer(r)));
        self.calls = Ghost(self.calls@.push(ToolCall::Ran(texts(args@), run_answer(r))));
        r
    }

    fn write(&mut self, args: &Vec<String>, id: &str, code: InputCode) -> (r: Result<
        CommandRun,
        ProcError,
    >)
        ensures
            final(self).runner() == old(self).runner(),
            final(self).looker() == old(self).looker(),
            ran(old(self).runner(), texts(args@), run_answer(r)),
    {
        proof {
            use_type_invariant(&*self);
        }
        let r = (self.run)(args);
        assert(ran(self.run, texts(args@), run_answer(r)));
        self.calls = Ghost(
            self.calls@.push(
                ToolCall::Wrote { id: id@, code, args: texts(args@), answer: run_answer(r) },
            ),
        );
        r
    }
}

// ---------------------------------------------------------------------------
// The Power Display CLI
// ---------------------------------------------------------------------------

/// With these arguments the Power Display CLI writes a setting.
pub open spec fn power_display_changes(args: Seq<Seq<char>>) -> bool {
    args.len() > 0 && args[0] == "set"@
}

/// What runs the Power Display CLI. `lookup` finds the EDID of a device path,
/// `pause` waits for a number of milliseconds.
pub struct PowerDisplayConsole<
    R: Fn(&Vec<String>) -> Result<CommandRun, ProcError>,
    E: Fn(&String) -> Option<EdidInfo>,
    P: Fn(u64),
> {
    run: R,
    lookup: E,
    pause: P,
    calls: Ghost<Seq<ToolCall>>,
}

impl<
    R: Fn(&Vec<String>) -> Result<CommandRun, ProcError>,
    E: Fn(&String) -> Option<EdidInfo>,
    P: Fn(u64),
> PowerDisplayConsole<R, E, P> {
    #[verifier::type_invariant]
    spec fn ready(self) -> bool {
        &&& runs_anything(self.run)
        &&& forall|p: String| #[trigger] call_requires(self.lookup, (&p,))
        &&& forall|ms: u64| call_requires(self.pause, (ms,))
    }

    pub closed spec fn runner(self) -> R {
        self.run
    }

    pub closed spec fn finder(self) -> E {
        self.lookup
    }

    pub closed spec fn pauser(self) -> P {
        self.pause
    }

    pub fn new(run: R, lookup: E, pause: P) -> (r: Self)
        requires
            runs_anything(run),
            forall|p: String| #[trigger] call_requires(lookup, (&p,)),
            forall|ms: u64| call_requires(pause, (ms,)),
        ensures
            r.runner() == run,
            r.finder() == lookup,
            r.pauser() == pause,
            r.calls() == Seq::<ToolCall>::empty(),
    {
        PowerDisplayConsole { run, lookup, pause, calls: Ghost(Seq::empty()) }
    }

    /// Looks up the EDID of a device path.
    pub fn identify(&mut self, path: &String) -> (r: Option<EdidInfo>)
        ensures
            final(self).runner() == old(self).runner(),
            final(self).finder() == old(self).finder(),
            final(self).pauser() == old(self).pauser(),
            final(self).calls() == old(self).calls().push(
                ToolCall::Identified(path@, opt_edid(r)),
            ),
            looked_up(old(self).finder(), path@, opt_edid(r)),
    {
        proof {
            use_type_invariant(&*self);
        }
        let r = (self.lookup)(path);
        assert(looked_up(self.lookup, path@, opt_edid(r)));
        self.calls = Ghost(self.calls@.push(ToolCall::Identified(path@, opt_edid(r))));
        r
    }

    /// Waits for a number of milliseconds.
    pub fn wait(&mut self, ms: u64)
        ensures
            final(self).runner() == old(self).runner(),
            final(self).finder() == old(self).finder(),
            final(self).pauser() == old(self).pauser(),
            final(self).calls() == old(self).calls().push(ToolCall::Waited(ms)),
            call_ensures(old(self).pauser(), (ms,), ()),
    {
        proof {
            use_type_invariant(&*self);
        }
        (self.pause)(ms);
        self.calls = Ghost(self.calls@.push(ToolCall::Waited(ms)));
    }
}

impl<
    R: Fn(&Vec<String>) -> Result<CommandRun, ProcError>,
    E: Fn(&String) -> Option<EdidInfo>,
    P: Fn(u64),
> Console for PowerDisplayConsole<R, E, P> {
    closed spec fn calls(&self) -> Seq<ToolCall> {
        self.calls@
    }

    open spec fn changes(args: Seq<Seq<char>>) -> bool {
        power_display_changes(args)
    }

    fn run(&mut self, args: &Vec<String>) -> (r: Result<CommandRun, ProcError>)
        ensures
            final(self).runner() == old(self).runner(),
            final(self).finder() == old(self).finder(),
            final(self).pauser() == old(self).pauser(),
            ran(old(self).runner(), texts(args@), run_answer(r)),
    {
        proof {
            use_type_invariant(&*self);
        }
        let r = (self.run)(args);
        assert(ran(self.run, texts(args@), run_answer(r)));
        self.calls = Ghost(self.calls@.push(ToolCall::Ran(texts(args@), run_answer(r))));
        r
    }

    fn write(&mut self, args: &Vec<String>, id: &str, code: InputCode) -> (r: Result<
        CommandRun,
        ProcError,
    >)
        ensures
            final(self).runner() == old(self).runner(),
            final(self).finder() == old(self).finder(),
            final(self).pauser() == old(self).pauser(),
            ran(old(self).runner(), texts(args@), run_answer(r)),
    {
        proof {
            use_type_invariant(&*self);
        }
        let r = (self.run)(args);
        assert(ran(self.run, texts(args@), run_answer(r)));
        self.calls = Ghost(
            self.calls@.push(
                ToolCall::Wrote { id: id@, code, args: texts(args@), answer: run_answer(r) },
            ),
        );
        r
    }
}

} // verus!

//! What the adapters over command-line tools have in common.
//!
//! An adapter decides which command to give and what its answer means. Running
//! the command is left to whoever holds the adapter.

use vstd::prelude::*;

use crate::backend::{from_proc_view, BackendError, BackendErrorView};
use crate::console::{Console, ToolCall};
use crate::proc::{run_answer, CommandRun, CommandRunView, ProcError, ProcErrorView};
use crate::seqs::{lemma_filter_take, lemma_filter_take_none};
use crate::text::{chars_of, copy_texts, opt_text, texts};
use crate::types::{
    DetectedMonitor, DetectedMonitorView, InputCode, InputSourceOption, InputSourceOptionView,
};

verus! {

// ---------------------------------------------------------------------------
// Answers
// ---------------------------------------------------------------------------

/// The answer of whatever runs a tool.
pub type RunAnswer = Result<CommandRunView, ProcErrorView>;

/// A command that ran, whether or not it succeeded.
pub open spec fn came_back(answer: RunAnswer) -> Result<CommandRunView, BackendErrorView> {
    match answer {
        Ok(run) => Ok(run),
        Err(e) => Err(from_proc_view(e)),
    }
}

pub open spec fn text_result(r: Result<String, BackendError>) -> Result<Seq<char>, BackendErrorView> {
    match r {
        Ok(s) => Ok(s@),
        Err(e) => Err(e.deep_view()),
    }
}

pub open spec fn command_result(r: Result<CommandRun, BackendError>) -> Result<
    CommandRunView,
    BackendErrorView,
> {
    match r {
        Ok(run) => Ok(run.deep_view()),
        Err(e) => Err(e.deep_view()),
    }
}

pub open spec fn texts_result(r: Result<Vec<String>, BackendError>) -> Result<
    Seq<Seq<char>>,
    BackendErrorView,
> {
    match r {
        Ok(v) => Ok(texts(v@)),
        Err(e) => Err(e.deep_view()),
    }
}

/// Nothing was asked of a tool that was not needed.
pub open spec fn unasked() -> RunAnswer {
    Err(ProcErrorView::NotFound(Seq::empty()))
}

/// A command was run to ask something, and nothing else was done.
pub open spec fn asked_so(
    before: Seq<ToolCall>,
    after: Seq<ToolCall>,
    args: Seq<Seq<char>>,
    answer: RunAnswer,
) -> bool {
    after == before.push(ToolCall::Ran(args, answer))
}

/// What came of running a command.
pub fn understand_run(out: Result<CommandRun, ProcError>) -> (r: Result<CommandRun, BackendError>)
    ensures
        command_result(r) == came_back(run_answer(out)),
{
    match out {
        Ok(done) => Ok(done),
        Err(e) => Err(BackendError::from_proc(&e)),
    }
}

/// Runs a command to ask something.
pub fn call<C: Console>(console: &mut C, args: &Vec<String>) -> (r: Result<CommandRun, BackendError>)
    requires
        !C::changes(texts(args@)),
    ensures
        exists|answer: RunAnswer|
            #[trigger] asked_so(
                old(console).calls(),
                final(console).calls(),
                texts(args@),
                answer,
            ) && command_result(r) == came_back(answer),
{
    let ghost before = console.calls();
    let out = console.run(args);
    assert(asked_so(before, console.calls(), texts(args@), run_answer(out)));
    understand_run(out)
}

// ---------------------------------------------------------------------------
// Arguments
// ---------------------------------------------------------------------------

/// Arguments, with more behind them.
pub fn with_args(selector: &Vec<String>, more: &[&str]) -> (r: Vec<String>)
    ensures
        texts(r@) == texts(selector@) + more@.map_values(|s: &str| s@),
{
    let mut out = copy_texts(selector);
    let ghost tail = more@.map_values(|s: &str| s@);
    let mut i: usize = 0;
    assert(texts(out@) =~= texts(selector@) + tail.take(0));
    while i < more.len()
        invariant
            i <= more.len(),
            tail == more@.map_values(|s: &str| s@),
            texts(out@) == texts(selector@) + tail.take(i as int),
        decreases more.len() - i,
    {
        let ghost before = out@;
        out.push(more[i].to_owned());
        assert(texts(out@) =~= texts(before).push(tail[i as int]));
        assert(texts(out@) =~= texts(selector@) + tail.take(i as int + 1));
        i += 1;
    }
    assert(tail.take(tail.len() as int) =~= tail);
    out
}

/// One argument alone.
pub fn one_arg(arg: &str) -> (r: Vec<String>)
    ensures
        texts(r@) == seq![arg@],
{
    let mut out: Vec<String> = Vec::new();
    out.push(arg.to_owned());
    assert(texts(out@) =~= seq![arg@]);
    out
}

/// A text that says something.
pub fn non_empty(o: &Option<String>) -> (r: Option<&str>)
    ensures
        crate::types::opt_str(r) == (match opt_text(*o) {
            Some(s) if s.len() > 0 => Some(s),
            _ => None,
        }),
{
    match o {
        Some(s) => {
            let cs = chars_of(s.as_str());
            if cs.len() > 0 {
                Some(s.as_str())
            } else {
                None
            }
        },
        None => None,
    }
}

// ---------------------------------------------------------------------------
// Displays and inputs
// ---------------------------------------------------------------------------

/// Holds of the displays that DDC/CI reaches.
pub open spec fn reachable() -> spec_fn(DetectedMonitorView) -> bool {
    |m: DetectedMonitorView| m.switchable()
}

/// Holds of those that DDC/CI reaches and that publish no serial.
pub open spec fn nameless() -> spec_fn(DetectedMonitorView) -> bool {
    |m: DetectedMonitorView| m.switchable() && m.identity.serial is None
}

/// How many displays DDC/CI reaches, and how many of those publish no serial.
pub fn count_reachable(all: &Vec<DetectedMonitor>) -> (r: (usize, usize))
    ensures
        r.0 == all.deep_view().filter(reachable()).len(),
        r.1 == all.deep_view().filter(nameless()).len(),
        r.1 <= r.0 <= all@.len(),
{
    let ghost ms = all.deep_view();
    let mut ddc: usize = 0;
    let mut without_serial: usize = 0;
    let mut i: usize = 0;
    proof {
        lemma_filter_take_none(ms, reachable());
        lemma_filter_take_none(ms, nameless());
    }
    while i < all.len()
        invariant
            i <= all.len(),
            ms == all.deep_view(),
            ddc == ms.take(i as int).filter(reachable()).len(),
            without_serial == ms.take(i as int).filter(nameless()).len(),
            without_serial <= ddc <= i,
        decreases all.len() - i,
    {
        proof {
            lemma_filter_take(ms, reachable(), i as int);
            lemma_filter_take(ms, nameless(), i as int);
        }
        if all[i].identity.transport.supports_input_switching() {
            assert(reachable()(ms[i as int]));
            ddc += 1;
            if all[i].identity.serial.is_none() {
                assert(nameless()(ms[i as int]));
                without_serial += 1;
            } else {
                assert(!nameless()(ms[i as int]));
            }
        } else {
            assert(!reachable()(ms[i as int]));
            assert(!nameless()(ms[i as int]));
        }
        i += 1;
    }
    proof {
        lemma_filter_take_none(ms, reachable());
        lemma_filter_take_none(ms, nameless());
    }
    (ddc, without_serial)
}

pub open spec fn labelled(o: (InputCode, Seq<char>)) -> InputSourceOptionView {
    InputSourceOptionView {
        code: o.0,
        label: if o.1.len() > 0 {
            Some(o.1)
        } else {
            None
        },
    }
}

/// The options of a tool's list, those without a label as such.
pub open spec fn labelled_all(options: Seq<(InputCode, Seq<char>)>) -> Seq<InputSourceOptionView> {
    options.map_values(|o: (InputCode, Seq<char>)| labelled(o))
}

pub open spec fn options_view(options: Seq<(InputCode, String)>) -> Seq<(InputCode, Seq<char>)> {
    options.map_values(|o: (InputCode, String)| (o.0, o.1@))
}

/// The options of a tool's list, those without a label as such.
pub fn label_all(listed: &Vec<(InputCode, String)>) -> (r: Vec<InputSourceOption>)
    ensures
        r.deep_view() == labelled_all(options_view(listed@)),
{
    let ghost want = labelled_all(options_view(listed@));
    let mut options: Vec<InputSourceOption> = Vec::new();
    let mut i: usize = 0;
    assert(options.deep_view() =~= want.take(0));
    while i < listed.len()
        invariant
            i <= listed.len(),
            want == labelled_all(options_view(listed@)),
            options.deep_view() == want.take(i as int),
        decreases listed.len() - i,
    {
        let o = &listed[i];
        let cs = chars_of(o.1.as_str());
        let ghost before = options.deep_view();
        options.push(
            InputSourceOption {
                code: o.0,
                label: if cs.len() > 0 {
                    Some(o.1.clone())
                } else {
                    None
                },
            },
        );
        assert(options.deep_view() =~= before.push(want[i as int]));
        assert(want.take(i as int + 1) =~= want.take(i as int).push(want[i as int]));
        i += 1;
    }
    assert(want.take(want.len() as int) =~= want);
    options
}

/// An option keeps its code, and its name where it has one.
pub proof fn law_options_keep_their_codes(options: Seq<(InputCode, Seq<char>)>)
    ensures
        labelled_all(options).len() == options.len(),
        forall|i: int|
            0 <= i < options.len() ==> {
                let o = #[trigger] labelled_all(options)[i];
                &&& o.code == options[i].0
                &&& o.label matches Some(name) ==> name == options[i].1 && name.len() > 0
                &&& o.label is None ==> options[i].1.len() == 0
            },
{
}

/// A command that ran is what came back of it, whatever its status; one that
/// could not run is an error.
pub proof fn law_what_ran_came_back(answer: RunAnswer)
    ensures
        answer matches Ok(run) ==> came_back(answer) == Ok::<CommandRunView, BackendErrorView>(run),
        answer is Err ==> came_back(answer) is Err,
{
}

/// A display without a name is a switchable one that published no serial.
pub proof fn law_a_nameless_display_has_no_serial(m: DetectedMonitorView)
    ensures
        reachable()(m) <==> m.identity.transport is DdcCi,
        nameless()(m) <==> m.identity.transport is DdcCi && m.identity.serial is None,
{
}

} // verus!

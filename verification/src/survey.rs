//! Asking monitors without changing anything: what each shows, and what each
//! offers where nobody has written it down.

use vstd::prelude::*;

use crate::backend::{
    capabilities_result, reading_answer, BackendErrorView, Exchange, MonitorBackend,
};
use crate::commands::{refusal_lines, refused, toggle_line, toggle_text};
use crate::config::{Config, ConfigView};
use crate::doctor::Told;
use crate::inventory::{Binding, BindingView};
use crate::listing::{opt_config, Seen, SeenView};
use crate::lookup::{
    configured_for, find_configured, is_switchable, monitor_views, must_ask, switchable_monitors,
};
use crate::switch::{
    best_effort, best_effort_view, plan_set_input, planned, toggle_target, toggled,
};
use crate::types::{
    DetectedMonitor, DetectedMonitorView, InputCapabilitiesView, InputCode,
    InputReading, InputReadingView, MonitorHandleView,
};

verus! {

// ---------------------------------------------------------------------------
// Every monitor
// ---------------------------------------------------------------------------

/// What a monitor answers: which input it shows, and which it offers.
pub struct Said {
    pub reading: Result<InputReadingView, BackendErrorView>,
    pub capabilities: Result<InputCapabilitiesView, BackendErrorView>,
}

/// Whether a monitor is asked for its inputs: only where the configuration has
/// none of them.
pub open spec fn asks(config: Option<ConfigView>, m: DetectedMonitorView) -> bool {
    match config {
        None => true,
        Some(c) => match configured_for(c.monitors, m.identity) {
            None => true,
            Some(known) => known.inputs.len() == 0,
        },
    }
}

/// What is asked of one monitor, with its answers.
pub open spec fn questions(config: Option<ConfigView>, m: DetectedMonitorView, said: Said) -> Seq<
    Exchange,
> {
    let first = seq![Exchange::Read(m.handle(), said.reading)];
    if asks(config, m) {
        first.push(Exchange::Asked(m.handle(), said.capabilities))
    } else {
        first
    }
}

/// What is asked of several monitors, one after the other.
pub open spec fn all_questions(
    config: Option<ConfigView>,
    ms: Seq<DetectedMonitorView>,
    said: Seq<Said>,
) -> Seq<Exchange>
    decreases ms.len(),
{
    if ms.len() == 0 {
        Seq::empty()
    } else {
        let last = ms.len() - 1;
        all_questions(config, ms.take(last), said) + questions(config, ms[last], said[last])
    }
}

pub open spec fn answered<T>(r: Result<T, BackendErrorView>) -> Option<T> {
    match r {
        Ok(v) => Some(v),
        Err(_) => None,
    }
}

/// A monitor with what it answered. A question that failed is left open.
pub open spec fn seen_as(config: Option<ConfigView>, m: DetectedMonitorView, said: Said) ->
    SeenView {
    SeenView {
        monitor: m,
        reading: answered(said.reading),
        capabilities: if asks(config, m) {
            answered(said.capabilities)
        } else {
            None
        },
    }
}

pub open spec fn all_seen(
    config: Option<ConfigView>,
    ms: Seq<DetectedMonitorView>,
    said: Seq<Said>,
) -> Seq<SeenView> {
    Seq::new(ms.len(), |i: int| seen_as(config, ms[i], said[i]))
}

/// These are the answers to the questions that were asked meanwhile.
pub open spec fn looked_over(
    config: Option<ConfigView>,
    ms: Seq<DetectedMonitorView>,
    said: Seq<Said>,
    before: Seq<Exchange>,
    after: Seq<Exchange>,
) -> bool {
    said.len() == ms.len() && after == before + all_questions(config, ms, said)
}

proof fn lemma_questions_of(
    config: Option<ConfigView>,
    ms: Seq<DetectedMonitorView>,
    a: Seq<Said>,
    b: Seq<Said>,
)
    requires
        forall|i: int| 0 <= i < ms.len() ==> #[trigger] a[i] == b[i],
    ensures
        all_questions(config, ms, a) == all_questions(config, ms, b),
    decreases ms.len(),
{
    if ms.len() > 0 {
        lemma_questions_of(config, ms.take(ms.len() - 1), a, b);
        assert(a[ms.len() - 1] == b[ms.len() - 1]);
    }
}

fn look_at<B: MonitorBackend>(
    config: Option<&Config>,
    monitor: &DetectedMonitor,
    backend: &mut B,
) -> (r: (Seen, Ghost<Said>))
    ensures
        r.0.deep_view() == seen_as(opt_config(config), monitor.deep_view(), r.1@),
        final(backend).heard() == old(backend).heard() + questions(
            opt_config(config),
            monitor.deep_view(),
            r.1@,
        ),
        final(backend).sent() == old(backend).sent(),
{
    let ghost m = monitor.deep_view();
    let ghost c = opt_config(config);
    let handle = monitor.handle();
    let known = match config {
        Some(c) => find_configured(c, &monitor.identity),
        None => None,
    };
    let ask = must_ask(known);
    assert(ask == asks(c, m));
    let read = backend.read_input(&handle);
    let ghost reading = reading_answer(read);
    let ghost first = backend.heard();
    assert(first =~= old(backend).heard() + seq![Exchange::Read(m.handle(), reading)]);
    let ghost mut capabilities: Result<InputCapabilitiesView, BackendErrorView> = Err(
        BackendErrorView::Io(Seq::empty()),
    );
    let offered = if ask {
        let claim = backend.input_capabilities(&handle);
        proof {
            capabilities = capabilities_result(claim);
        }
        match claim {
            Ok(c) => Some(c),
            Err(_) => None,
        }
    } else {
        None
    };
    let seen = Seen {
        monitor: monitor.clone(),
        reading: match read {
            Ok(r) => Some(r),
            Err(_) => None,
        },
        capabilities: offered,
    };
    let ghost said = Said { reading, capabilities };
    assert(backend.heard() =~= old(backend).heard() + questions(c, m, said));
    (seen, Ghost(said))
}

/// Asks every monitor whose input can be switched what it shows, and which
/// inputs it offers where the configuration does not say. A monitor that does
/// not answer is still listed, and nothing is written.
pub fn look_over<B: MonitorBackend>(
    config: Option<&Config>,
    detected: &[DetectedMonitor],
    backend: &mut B,
) -> (r: Vec<Seen>)
    ensures
        exists|said: Seq<Said>|
            #[trigger] looked_over(
                opt_config(config),
                detected.deep_view().filter(is_switchable()),
                said,
                old(backend).heard(),
                final(backend).heard(),
            ) && r.deep_view() == all_seen(
                opt_config(config),
                detected.deep_view().filter(is_switchable()),
                said,
            ),
        final(backend).sent() == old(backend).sent(),
{
    let ghost c = opt_config(config);
    let ghost ms = detected.deep_view().filter(is_switchable());
    let monitors = switchable_monitors(detected);
    let ghost mut said: Seq<Said> = Seq::empty();
    let mut out: Vec<Seen> = Vec::new();
    let mut i: usize = 0;
    assert(out.deep_view() =~= all_seen(c, ms.take(0), said));
    assert(backend.heard() =~= old(backend).heard() + all_questions(c, ms.take(0), said));
    while i < monitors.len()
        invariant
            i <= monitors@.len(),
            c == opt_config(config),
            ms == monitor_views(monitors@),
            said.len() == i,
            out.deep_view() == all_seen(c, ms.take(i as int), said),
            backend.heard() == old(backend).heard() + all_questions(c, ms.take(i as int), said),
            backend.sent() == old(backend).sent(),
        decreases monitors@.len() - i,
    {
        let ghost heard = backend.heard();
        let ghost had = out.deep_view();
        assert(ms[i as int] == monitors@[i as int].deep_view());
        let (seen, Ghost(answer)) = look_at(config, monitors[i], backend);
        out.push(seen);
        proof {
            let before = said;
            said = said.push(answer);
            let next = ms.take(i as int + 1);
            assert(next.take(i as int) =~= ms.take(i as int));
            lemma_questions_of(c, ms.take(i as int), before, said);
            assert(backend.heard() =~= old(backend).heard() + all_questions(c, next, said));
            assert(out.deep_view() =~= had.push(seen_as(c, ms[i as int], answer)));
            assert(out.deep_view() =~= all_seen(c, next, said)) by {
                assert forall|k: int| 0 <= k < i implies seen_as(c, next[k], said[k]) == had[k] by {
                    assert(said[k] == before[k]);
                }
            }
        }
        i += 1;
    }
    assert(ms.take(ms.len() as int) =~= ms);
    assert(looked_over(c, ms, said, old(backend).heard(), backend.heard()));
    out
}

// ---------------------------------------------------------------------------
// Bound monitors
// ---------------------------------------------------------------------------

/// Each bound monitor is read once, in order.
pub open spec fn reads(
    bound: Seq<BindingView>,
    answers: Seq<Result<InputReadingView, BackendErrorView>>,
) -> Seq<Exchange> {
    Seq::new(bound.len(), |i: int| Exchange::Read(bound[i].detected.handle(), answers[i]))
}

/// These are the answers to the reads that were made meanwhile.
pub open spec fn all_read(
    bound: Seq<BindingView>,
    answers: Seq<Result<InputReadingView, BackendErrorView>>,
    before: Seq<Exchange>,
    after: Seq<Exchange>,
) -> bool {
    answers.len() == bound.len() && after == before + reads(bound, answers)
}

/// Reads every bound monitor. A read that fails is told as one, and nothing is
/// written.
pub fn read_all<B: MonitorBackend>(bound: &Vec<Binding>, backend: &mut B) -> (r: Vec<InputReading>)
    ensures
        exists|answers: Seq<Result<InputReadingView, BackendErrorView>>|
            #[trigger] all_read(
                bound.deep_view(),
                answers,
                old(backend).heard(),
                final(backend).heard(),
            ) && r.deep_view() == answers.map_values(
                |a: Result<InputReadingView, BackendErrorView>| best_effort_view(a),
            ),
        r@.len() == bound@.len(),
        final(backend).sent() == old(backend).sent(),
{
    let ghost all = bound.deep_view();
    let ghost told = |a: Result<InputReadingView, BackendErrorView>| best_effort_view(a);
    let ghost mut answers: Seq<Result<InputReadingView, BackendErrorView>> = Seq::empty();
    let mut out: Vec<InputReading> = Vec::new();
    let mut i: usize = 0;
    assert(out.deep_view() =~= answers.map_values(told));
    assert(backend.heard() =~= old(backend).heard() + reads(all.take(0), answers));
    while i < bound.len()
        invariant
            i <= bound@.len(),
            all == bound.deep_view(),
            told == (|a: Result<InputReadingView, BackendErrorView>| best_effort_view(a)),
            answers.len() == i,
            out.deep_view() == answers.map_values(told),
            backend.heard() == old(backend).heard() + reads(all.take(i as int), answers),
            backend.sent() == old(backend).sent(),
        decreases bound@.len() - i,
    {
        let ghost had = out.deep_view();
        assert(all[i as int] == bound@[i as int].deep_view());
        let read = backend.read_input(&bound[i].handle());
        let ghost answer = reading_answer(read);
        out.push(best_effort(read));
        proof {
            let before = answers;
            answers = answers.push(answer);
            assert(out.deep_view() =~= had.push(best_effort_view(answer)));
            assert(out.deep_view() =~= answers.map_values(told));
            assert(reads(all.take(i as int + 1), answers) =~= reads(
                all.take(i as int),
                before,
            ).push(Exchange::Read(all[i as int].detected.handle(), answer)));
            assert(backend.heard() =~= old(backend).heard() + reads(
                all.take(i as int + 1),
                answers,
            ));
        }
        i += 1;
    }
    assert(all.take(all.len() as int) =~= all);
    assert(all_read(all, answers, old(backend).heard(), backend.heard()));
    assert(out.deep_view().len() == out@.len());
    out
}

// ---------------------------------------------------------------------------
// Before a toggle
// ---------------------------------------------------------------------------

/// How a toggle begins.
#[derive(Debug, PartialEq, Eq)]
pub enum ToggleStart {
    /// The monitor cannot be set, and this says why.
    Refused(Told),
    /// Say this, then set this input.
    Go { code: InputCode, line: String },
}

/// The input a reading shows, where it shows one.
pub open spec fn value_read(answer: Result<InputReadingView, BackendErrorView>) -> Option<
    InputCode,
> {
    match answer {
        Ok(reading) => reading.value(),
        Err(_) => None,
    }
}

/// The monitor was read once meanwhile, and answered this.
pub open spec fn read_once(
    handle: MonitorHandleView,
    answer: Result<InputReadingView, BackendErrorView>,
    before: Seq<Exchange>,
    after: Seq<Exchange>,
) -> bool {
    after == before.push(Exchange::Read(handle, answer))
}

/// A toggle goes on with the input that what the monitor reports calls for.
pub open spec fn toggle_goes_on(
    start: ToggleStart,
    label: Seq<char>,
    between: [InputCode; 2],
    answer: Result<InputReadingView, BackendErrorView>,
) -> bool {
    let target = toggled(value_read(answer), between@[0], between@[1]);
    start matches ToggleStart::Go { code, line } && code == target && line@ == toggle_text(
        label,
        value_read(answer),
        target,
    )
}

/// Decides which of two inputs a toggle sets, by asking the monitor which one
/// it shows. Nothing is written, and a monitor that cannot be set is not even
/// asked.
pub fn begin_toggle<B: MonitorBackend>(
    config: &Config,
    detected: &[DetectedMonitor],
    monitor: &str,
    between: [InputCode; 2],
    backend: &mut B,
) -> (r: ToggleStart)
    ensures
        match planned(config.deep_view(), detected.deep_view(), monitor@, between@[0]) {
            Err(e) => {
                &&& r matches ToggleStart::Refused(told) && told.page@ == refusal_lines(e)
                    && told.code == 2
                &&& final(backend).heard() == old(backend).heard()
            },
            Ok(plan) => exists|answer: Result<InputReadingView, BackendErrorView>|
                #[trigger] read_once(
                    plan.handle,
                    answer,
                    old(backend).heard(),
                    final(backend).heard(),
                ) && toggle_goes_on(r, plan.label, between, answer),
        },
        final(backend).sent() == old(backend).sent(),
{
    let plan = match plan_set_input(config, detected, monitor, between[0]) {
        Ok(p) => p,
        Err(e) => {
            return ToggleStart::Refused(refused(&e));
        },
    };
    let read = backend.read_input(&plan.handle);
    let ghost answer = reading_answer(read);
    let reported = match read {
        Ok(reading) => reading.value(),
        Err(_) => None,
    };
    let target = toggle_target(reported, between);
    let r = ToggleStart::Go {
        code: target,
        line: toggle_line(plan.label.as_str(), reported, target),
    };
    assert(toggle_goes_on(r, plan.deep_view().label, between, answer));
    assert(read_once(plan.deep_view().handle, answer, old(backend).heard(), backend.heard()));
    r
}

/// Looking a monitor over reads it, asks it for its inputs only where none of
/// them is configured, and writes nothing; what it is seen as is what it said.
pub proof fn law_looking_a_monitor_over_only_asks(
    config: Option<ConfigView>,
    m: DetectedMonitorView,
    said: Said,
)
    ensures
        ({
            let known = match config {
                Some(c) => match configured_for(c.monitors, m.identity) {
                    Some(k) => k.inputs.len() > 0,
                    None => false,
                },
                None => false,
            };
            let q = questions(config, m, said);
            let s = seen_as(config, m, said);
            &&& q[0] == Exchange::Read(m.handle(), said.reading)
            &&& known ==> q.len() == 1 && s.capabilities is None
            &&& !known ==> q.len() == 2 && q[1] == Exchange::Asked(m.handle(), said.capabilities)
            &&& s.monitor == m
            &&& said.reading matches Ok(r) ==> s.reading == Some(r)
            &&& said.reading is Err ==> s.reading is None
            &&& !known ==> (said.capabilities matches Ok(c) ==> s.capabilities == Some(c))
        }),
{
}

/// Looking several over asks each of them and writes to none; each is seen, in
/// order.
pub proof fn law_looking_over_writes_nothing(
    config: Option<ConfigView>,
    ms: Seq<DetectedMonitorView>,
    said: Seq<Said>,
    i: int,
)
    requires
        said.len() == ms.len(),
    ensures
        0 <= i < all_questions(config, ms, said).len() ==> all_questions(config, ms, said)[i]
            !is Wrote,
        all_questions(config, ms, said).len() >= ms.len(),
        all_seen(config, ms, said).len() == ms.len(),
        0 <= i < ms.len() ==> all_seen(config, ms, said)[i].monitor == ms[i],
        0 <= i < ms.len() ==> all_questions(config, ms, said).contains(
            Exchange::Read(ms[i].handle(), said[i].reading),
        ),
{
    lemma_questions(config, ms, said, ms.len() as int);
    assert(ms.take(ms.len() as int) =~= ms);
    let all = all_questions(config, ms, said);
    if 0 <= i < ms.len() {
        let k = lemma_question_of(config, ms, said, i);
        assert(all[k] == Exchange::Read(ms[i].handle(), said[i].reading));
    }
}

proof fn lemma_questions(
    config: Option<ConfigView>,
    ms: Seq<DetectedMonitorView>,
    said: Seq<Said>,
    n: int,
)
    requires
        0 <= n <= ms.len(),
    ensures
        all_questions(config, ms.take(n), said).len() >= n,
        forall|i: int|
            0 <= i < all_questions(config, ms.take(n), said).len() ==> #[trigger] all_questions(
                config,
                ms.take(n),
                said,
            )[i] !is Wrote,
    decreases n,
{
    if n > 0 {
        lemma_questions(config, ms, said, n - 1);
        let now = ms.take(n);
        assert(now.take(n - 1) =~= ms.take(n - 1));
        let front = all_questions(config, ms.take(n - 1), said);
        let all = all_questions(config, now, said);
        assert forall|i: int| 0 <= i < all.len() implies #[trigger] all[i] !is Wrote by {
            if i < front.len() {
                assert(all[i] == front[i]);
            }
        }
    }
}

proof fn lemma_question_of(
    config: Option<ConfigView>,
    ms: Seq<DetectedMonitorView>,
    said: Seq<Said>,
    i: int,
) -> (k: int)
    requires
        0 <= i < ms.len(),
    ensures
        0 <= k < all_questions(config, ms, said).len(),
        all_questions(config, ms, said)[k] == Exchange::Read(ms[i].handle(), said[i].reading),
    decreases ms.len(),
{
    let last = ms.len() - 1;
    let front = all_questions(config, ms.take(last), said);
    let all = all_questions(config, ms, said);
    if i == last {
        assert(all[front.len() as int] == questions(config, ms[last], said[last])[0]);
        front.len() as int
    } else {
        let k = lemma_question_of(config, ms.take(last), said, i);
        assert(ms.take(last)[i] == ms[i]);
        assert(all[k] == front[k]);
        k
    }
}

/// What a read says of the input is the code that was read; a read that failed,
/// or gave no code, says nothing.
pub proof fn law_a_value_is_what_was_read(answer: Result<InputReadingView, BackendErrorView>)
    ensures
        value_read(answer) == match answer {
            Ok(InputReadingView::Value(code)) => Some(code),
            _ => None,
        },
{
}

} // verus!

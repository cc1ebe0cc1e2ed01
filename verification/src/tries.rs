//! Trying again: something is attempted, and after a rest once more, until the
//! answer is one to keep or there are no attempts left.

use vstd::prelude::*;

verus! {

/// An answer that may be worth asking for again.
pub trait Answer {
    /// The answer may be another one the next time.
    spec fn fleeting(&self) -> bool;

    fn is_fleeting(&self) -> (r: bool)
        ensures
            r == self.fleeting(),
    ;
}

/// What can be tried, with a rest between two tries. Every try and every rest is
/// kept in a record, in order.
pub trait Tries<G, T> {
    type Step;

    /// Every step that was taken so far.
    spec fn steps(&self) -> Seq<Self::Step>;

    /// The step was a try at the goal that gave this answer.
    spec fn gave(goal: G, step: Self::Step, answer: T) -> bool;

    /// The step was a rest before the next try at the goal.
    spec fn rested(goal: G, step: Self::Step) -> bool;

    /// Tries once.
    fn attempt(&mut self, goal: &G) -> (r: T)
        ensures
            exists|step: Self::Step| #[trigger]
                Self::gave(*goal, step, r) && final(self).steps() == old(self).steps().push(step),
    ;

    /// Rests once.
    fn rest(&mut self, goal: &G)
        ensures
            exists|step: Self::Step| #[trigger]
                Self::rested(*goal, step) && final(self).steps() == old(self).steps().push(step),
    ;
}

/// How often something is tried that was given so many attempts.
pub open spec fn at_most(attempts: usize) -> nat {
    if attempts == 0 {
        1
    } else {
        attempts as nat
    }
}

/// These answers came in turn: each but the last was worth asking for again,
/// and one that was is the last only when there were no attempts left.
pub open spec fn in_turn<T: Answer>(answers: Seq<T>, attempts: usize) -> bool {
    &&& 1 <= answers.len() <= at_most(attempts)
    &&& forall|i: int| 0 <= i < answers.len() - 1 ==> (#[trigger] answers[i]).fleeting()
    &&& answers.last().fleeting() ==> answers.len() == at_most(attempts)
}

/// The steps that were tries.
pub open spec fn try_of<S>(steps: Seq<S>, i: int) -> S {
    steps[2 * i]
}

/// The steps between the tries.
pub open spec fn rest_of<S>(steps: Seq<S>, i: int) -> S {
    steps[2 * i + 1]
}

/// These steps were a try for each answer, with one rest between two tries.
pub open spec fn took_turns<G, T, A: Tries<G, T>>(
    goal: G,
    answers: Seq<T>,
    steps: Seq<A::Step>,
) -> bool {
    &&& steps.len() == 2 * answers.len() - 1
    &&& forall|i: int|
        0 <= i < answers.len() ==> A::gave(goal, #[trigger] try_of(steps, i), answers[i])
    &&& forall|i: int|
        0 <= i < answers.len() - 1 ==> A::rested(goal, #[trigger] rest_of(steps, i))
}

/// Something was tried until the answer was one to keep, and nothing else was
/// done.
pub open spec fn repeated<G, T: Answer, A: Tries<G, T>>(
    attempts: usize,
    goal: G,
    before: Seq<A::Step>,
    after: Seq<A::Step>,
    answers: Seq<T>,
    steps: Seq<A::Step>,
) -> bool {
    &&& in_turn(answers, attempts)
    &&& took_turns::<G, T, A>(goal, answers, steps)
    &&& after == before + steps
}

/// Tries until the answer is one to keep, or there are no attempts left. It is
/// tried once at least.
pub fn repeat<G, T: Answer, A: Tries<G, T>>(attempts: usize, tries: &mut A, goal: &G) -> (r: T)
    ensures
        exists|answers: Seq<T>, steps: Seq<A::Step>|
            #[trigger] repeated::<G, T, A>(
                attempts,
                *goal,
                old(tries).steps(),
                final(tries).steps(),
                answers,
                steps,
            ) && answers.last() == r,
{
    let ghost start = tries.steps();
    let mut left: usize = if attempts == 0 {
        0
    } else {
        attempts - 1
    };
    let mut last = tries.attempt(goal);
    let ghost first = choose|step: A::Step| #[trigger]
        A::gave(*goal, step, last) && tries.steps() == start.push(step);
    let ghost mut answers: Seq<T> = seq![last];
    let ghost mut steps: Seq<A::Step> = seq![first];
    assert(tries.steps() =~= start + steps);
    loop
        invariant
            answers.len() >= 1,
            answers.len() + left == at_most(attempts),
            answers.last() == last,
            forall|i: int| 0 <= i < answers.len() - 1 ==> (#[trigger] answers[i]).fleeting(),
            took_turns::<G, T, A>(*goal, answers, steps),
            tries.steps() == start + steps,
        ensures
            in_turn(answers, attempts),
            answers.last() == last,
            took_turns::<G, T, A>(*goal, answers, steps),
            tries.steps() == start + steps,
        decreases left,
    {
        if !last.is_fleeting() || left == 0 {
            break;
        }
        let ghost before = tries.steps();
        tries.rest(goal);
        let ghost rest = choose|step: A::Step| #[trigger]
            A::rested(*goal, step) && tries.steps() == before.push(step);
        let ghost between = tries.steps();
        last = tries.attempt(goal);
        proof {
            let next = choose|step: A::Step| #[trigger]
                A::gave(*goal, step, last) && tries.steps() == between.push(step);
            let answers_before = answers;
            let steps_before = steps;
            answers = answers.push(last);
            steps = steps.push(rest).push(next);
            assert(tries.steps() =~= start + steps);
            assert forall|i: int| 0 <= i < answers.len() implies A::gave(
                *goal,
                #[trigger] try_of(steps, i),
                answers[i],
            ) by {
                if i < answers_before.len() {
                    assert(try_of(steps, i) == try_of(steps_before, i));
                } else {
                    assert(try_of(steps, i) == next);
                }
            }
            assert forall|i: int| 0 <= i < answers.len() - 1 implies A::rested(
                *goal,
                #[trigger] rest_of(steps, i),
            ) by {
                if i < answers_before.len() - 1 {
                    assert(rest_of(steps, i) == rest_of(steps_before, i));
                } else {
                    assert(rest_of(steps, i) == rest);
                }
            }
        }
        left -= 1;
    }
    assert(repeated::<G, T, A>(attempts, *goal, start, tries.steps(), answers, steps));
    last
}

// ---------------------------------------------------------------------------
// A question and a way to wait
// ---------------------------------------------------------------------------

/// One step of a probe.
pub enum ProbeStep<T> {
    Asked(T),
    Slept,
}

/// A question that can be asked again, and a way to wait in between.
#[verifier::reject_recursive_types(T)]
pub struct Probe<T, Q: Fn() -> T, S: Fn()> {
    ask: Q,
    sleep: S,
    taken: Ghost<Seq<ProbeStep<T>>>,
}

impl<T, Q: Fn() -> T, S: Fn()> Probe<T, Q, S> {
    #[verifier::type_invariant]
    spec fn ready(self) -> bool {
        call_requires(self.ask, ()) && call_requires(self.sleep, ())
    }

    pub closed spec fn taken(self) -> Seq<ProbeStep<T>> {
        self.taken@
    }

    pub closed spec fn question(self) -> Q {
        self.ask
    }

    pub fn new(ask: Q, sleep: S) -> (r: Self)
        requires
            call_requires(ask, ()),
            call_requires(sleep, ()),
        ensures
            r.taken() == Seq::<ProbeStep<T>>::empty(),
            r.question() == ask,
    {
        Probe { ask, sleep, taken: Ghost(Seq::empty()) }
    }
}

impl<T, Q: Fn() -> T, S: Fn()> Tries<(), T> for Probe<T, Q, S> {
    type Step = ProbeStep<T>;

    open spec fn steps(&self) -> Seq<ProbeStep<T>> {
        self.taken()
    }

    open spec fn gave(goal: (), step: ProbeStep<T>, answer: T) -> bool {
        step == ProbeStep::Asked(answer)
    }

    open spec fn rested(goal: (), step: ProbeStep<T>) -> bool {
        step is Slept
    }

    fn attempt(&mut self, goal: &()) -> (r: T)
        ensures
            final(self).question() == old(self).question(),
            call_ensures(old(self).question(), (), r),
    {
        proof {
            use_type_invariant(&*self);
        }
        let r = (self.ask)();
        self.taken = Ghost(self.taken@.push(ProbeStep::Asked(r)));
        assert(Self::gave(*goal, ProbeStep::Asked(r), r));
        r
    }

    fn rest(&mut self, goal: &())
        ensures
            final(self).question() == old(self).question(),
    {
        proof {
            use_type_invariant(&*self);
        }
        (self.sleep)();
        self.taken = Ghost(self.taken@.push(ProbeStep::Slept));
        assert(Self::rested(*goal, ProbeStep::<T>::Slept));
    }
}

} // verus!

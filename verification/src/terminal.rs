//! Whoever is at the terminal: what they are told and asked.
//!
//! Only the system can reach them, so each of these is handed in. Everything
//! that is said and asked is kept in a record, in order.

use vstd::prelude::*;

use crate::page::{LineView, Page};
use crate::prompt::{prompt_error_text, PromptError};

verus! {

/// One thing that was said or asked, with the reply.
pub enum Remark {
    Said(Seq<LineView>),
    /// A question for a yes or a no.
    Confirmed(Seq<char>, Result<bool, Seq<char>>),
    /// A question with a suggestion.
    Named(Seq<char>, Seq<char>, Result<Seq<char>, Seq<char>>),
}

pub open spec fn reply_text<T>(r: Result<T, PromptError>) -> Result<T, Seq<char>> {
    match r {
        Ok(v) => Ok(v),
        Err(e) => Err(prompt_error_text(e)),
    }
}

pub open spec fn name_text(r: Result<String, PromptError>) -> Result<Seq<char>, Seq<char>> {
    match r {
        Ok(v) => Ok(v@),
        Err(e) => Err(prompt_error_text(e)),
    }
}

/// The terminal.
pub struct Terminal<
    S: Fn(&Page),
    C: Fn(&str) -> Result<bool, PromptError>,
    A: Fn(&str, &str) -> Result<String, PromptError>,
> {
    say: S,
    confirm: C,
    ask: A,
    talk: Ghost<Seq<Remark>>,
}

impl<
    S: Fn(&Page),
    C: Fn(&str) -> Result<bool, PromptError>,
    A: Fn(&str, &str) -> Result<String, PromptError>,
> Terminal<S, C, A> {
    #[verifier::type_invariant]
    spec fn ready(self) -> bool {
        &&& forall|p: Page| #[trigger] call_requires(self.say, (&p,))
        &&& forall|q: &str| #[trigger] call_requires(self.confirm, (q,))
        &&& forall|q: &str, s: &str| #[trigger] call_requires(self.ask, (q, s))
    }

    /// How things are said.
    pub closed spec fn sayer(self) -> S {
        self.say
    }

    /// How a yes or a no is asked for.
    pub closed spec fn confirmer(self) -> C {
        self.confirm
    }

    /// How a name is asked for.
    pub closed spec fn asker(self) -> A {
        self.ask
    }

    /// Everything that was said and asked so far.
    pub closed spec fn talk(self) -> Seq<Remark> {
        self.talk@
    }

    pub fn new(say: S, confirm: C, ask: A) -> (r: Self)
        requires
            forall|p: Page| #[trigger] call_requires(say, (&p,)),
            forall|q: &str| #[trigger] call_requires(confirm, (q,)),
            forall|q: &str, s: &str| #[trigger] call_requires(ask, (q, s)),
        ensures
            r.sayer() == say,
            r.confirmer() == confirm,
            r.asker() == ask,
            r.talk() == Seq::<Remark>::empty(),
    {
        Terminal { say, confirm, ask, talk: Ghost(Seq::empty()) }
    }

    pub fn say(&mut self, page: Page)
        ensures
            final(self).sayer() == old(self).sayer(),
            final(self).confirmer() == old(self).confirmer(),
            final(self).asker() == old(self).asker(),
            final(self).talk() == old(self).talk().push(Remark::Said(page@)),
            call_ensures(old(self).sayer(), (&page,), ()),
    {
        proof {
            use_type_invariant(&*self);
        }
        (self.say)(&page);
        self.talk = Ghost(self.talk@.push(Remark::Said(page@)));
    }

    pub fn confirm(&mut self, question: &str) -> (r: Result<bool, PromptError>)
        ensures
            final(self).sayer() == old(self).sayer(),
            final(self).confirmer() == old(self).confirmer(),
            final(self).asker() == old(self).asker(),
            final(self).talk() == old(self).talk().push(
                Remark::Confirmed(question@, reply_text(r)),
            ),
            call_ensures(old(self).confirmer(), (question,), r),
    {
        proof {
            use_type_invariant(&*self);
        }
        let r = (self.confirm)(question);
        self.talk = Ghost(self.talk@.push(Remark::Confirmed(question@, reply_text(r))));
        r
    }

    pub fn ask(&mut self, question: &str, suggestion: &str) -> (r: Result<String, PromptError>)
        ensures
            final(self).sayer() == old(self).sayer(),
            final(self).confirmer() == old(self).confirmer(),
            final(self).asker() == old(self).asker(),
            final(self).talk() == old(self).talk().push(
                Remark::Named(question@, suggestion@, name_text(r)),
            ),
            call_ensures(old(self).asker(), (question, suggestion), r),
    {
        proof {
            use_type_invariant(&*self);
        }
        let r = (self.ask)(question, suggestion);
        self.talk = Ghost(
            self.talk@.push(Remark::Named(question@, suggestion@, name_text(r))),
        );
        r
    }
}

} // verus!

//! Waiting, with a record of every wait.

use vstd::prelude::*;

use crate::backend::MonitorBackend;

verus! {

/// One wait.
pub struct Wait {
    /// How long, in milliseconds.
    pub ms: u64,
    /// After how many exchanges with the backend.
    pub after: nat,
}

/// A way to wait for a number of milliseconds.
pub struct Clock<P: Fn(u64)> {
    pause: P,
    waits: Ghost<Seq<Wait>>,
}

impl<P: Fn(u64)> Clock<P> {
    #[verifier::type_invariant]
    spec fn ready(self) -> bool {
        forall|ms: u64| call_requires(self.pause, (ms,))
    }

    pub closed spec fn pauser(self) -> P {
        self.pause
    }

    /// Every wait so far.
    pub closed spec fn waits(self) -> Seq<Wait> {
        self.waits@
    }

    pub fn new(pause: P) -> (r: Self)
        requires
            forall|ms: u64| call_requires(pause, (ms,)),
        ensures
            r.pauser() == pause,
            r.waits() == Seq::<Wait>::empty(),
    {
        Clock { pause, waits: Ghost(Seq::empty()) }
    }

    /// Waits before anything else is asked of a backend.
    pub fn wait<B: MonitorBackend>(&mut self, ms: u64, backend: &B)
        ensures
            final(self).pauser() == old(self).pauser(),
            final(self).waits() == old(self).waits().push(
                (Wait { ms, after: backend.heard().len() }),
            ),
            call_ensures(old(self).pauser(), (ms,), ()),
    {
        proof {
            use_type_invariant(&*self);
        }
        (self.pause)(ms);
        self.waits = Ghost(self.waits@.push(Wait { ms, after: backend.heard().len() }));
    }
}

} // verus!

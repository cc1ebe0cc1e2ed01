//! The desktop of this computer, together with what reaches it.
//!
//! Only the system can change it, so each of these is handed in. Everything
//! that is asked and done is kept in a record, in order.

use vstd::prelude::*;

use crate::desktop::{
    desktop_look, report_result, tried, with_message, DeskCall, DesktopDisplay, DesktopError,
    DesktopManager, MovedWindow, RestoreReport, SavedDisplayMode, SweepReport,
};

verus! {

/// What reaches a desktop.
pub struct Reach<
    L: Fn() -> Result<Vec<DesktopDisplay>, DesktopError>,
    W: Fn(&DesktopDisplay) -> Result<SweepReport, DesktopError>,
    B: Fn(&[MovedWindow]) -> Result<RestoreReport, DesktopError>,
    P: Fn(&DesktopDisplay) -> Result<(), DesktopError>,
    D: Fn(&DesktopDisplay) -> Result<SavedDisplayMode, DesktopError>,
    A: Fn(&DesktopDisplay, SavedDisplayMode) -> Result<(), DesktopError>,
> {
    /// Looks at the displays.
    pub displays: L,
    /// Moves windows off a display.
    pub sweep: W,
    /// Puts windows back.
    pub restore: B,
    /// Makes a display the primary one.
    pub promote: P,
    /// Detaches a display.
    pub detach: D,
    /// Attaches a display in a mode.
    pub attach: A,
}

impl<
    L: Fn() -> Result<Vec<DesktopDisplay>, DesktopError>,
    W: Fn(&DesktopDisplay) -> Result<SweepReport, DesktopError>,
    B: Fn(&[MovedWindow]) -> Result<RestoreReport, DesktopError>,
    P: Fn(&DesktopDisplay) -> Result<(), DesktopError>,
    D: Fn(&DesktopDisplay) -> Result<SavedDisplayMode, DesktopError>,
    A: Fn(&DesktopDisplay, SavedDisplayMode) -> Result<(), DesktopError>,
> Reach<L, W, B, P, D, A> {
    /// Everything can be asked and done.
    pub open spec fn ready(self) -> bool {
        &&& call_requires(self.displays, ())
        &&& forall|d: DesktopDisplay| #[trigger] call_requires(self.sweep, (&d,))
        &&& forall|ws: &[MovedWindow]| #[trigger] call_requires(self.restore, (ws,))
        &&& forall|d: DesktopDisplay| #[trigger] call_requires(self.promote, (&d,))
        &&& forall|d: DesktopDisplay| #[trigger] call_requires(self.detach, (&d,))
        &&& forall|d: DesktopDisplay, m: SavedDisplayMode| #[trigger]
            call_requires(self.attach, (&d, m))
    }
}

/// A desktop that is reached in some way.
pub struct LiveDesktop<
    L: Fn() -> Result<Vec<DesktopDisplay>, DesktopError>,
    W: Fn(&DesktopDisplay) -> Result<SweepReport, DesktopError>,
    B: Fn(&[MovedWindow]) -> Result<RestoreReport, DesktopError>,
    P: Fn(&DesktopDisplay) -> Result<(), DesktopError>,
    D: Fn(&DesktopDisplay) -> Result<SavedDisplayMode, DesktopError>,
    A: Fn(&DesktopDisplay, SavedDisplayMode) -> Result<(), DesktopError>,
> {
    name: String,
    reach: Reach<L, W, B, P, D, A>,
    asked: Ghost<Seq<DeskCall>>,
}

impl<
    L: Fn() -> Result<Vec<DesktopDisplay>, DesktopError>,
    W: Fn(&DesktopDisplay) -> Result<SweepReport, DesktopError>,
    B: Fn(&[MovedWindow]) -> Result<RestoreReport, DesktopError>,
    P: Fn(&DesktopDisplay) -> Result<(), DesktopError>,
    D: Fn(&DesktopDisplay) -> Result<SavedDisplayMode, DesktopError>,
    A: Fn(&DesktopDisplay, SavedDisplayMode) -> Result<(), DesktopError>,
> LiveDesktop<L, W, B, P, D, A> {
    #[verifier::type_invariant]
    spec fn ready(self) -> bool {
        self.reach.ready()
    }

    pub closed spec fn reach(self) -> Reach<L, W, B, P, D, A> {
        self.reach
    }

    pub fn new(name: String, reach: Reach<L, W, B, P, D, A>) -> (r: Self)
        requires
            reach.ready(),
        ensures
            r.reach() == reach,
            r.called() == name@,
            r.done() == Seq::<DeskCall>::empty(),
    {
        LiveDesktop { name, reach, asked: Ghost(Seq::empty()) }
    }
}

impl<
    L: Fn() -> Result<Vec<DesktopDisplay>, DesktopError>,
    W: Fn(&DesktopDisplay) -> Result<SweepReport, DesktopError>,
    B: Fn(&[MovedWindow]) -> Result<RestoreReport, DesktopError>,
    P: Fn(&DesktopDisplay) -> Result<(), DesktopError>,
    D: Fn(&DesktopDisplay) -> Result<SavedDisplayMode, DesktopError>,
    A: Fn(&DesktopDisplay, SavedDisplayMode) -> Result<(), DesktopError>,
> DesktopManager for LiveDesktop<L, W, B, P, D, A> {
    closed spec fn done(&self) -> Seq<DeskCall> {
        self.asked@
    }

    closed spec fn called(&self) -> Seq<char> {
        self.name@
    }

    fn name(&self) -> (r: &str) {
        self.name.as_str()
    }

    fn displays(&mut self) -> (r: Result<Vec<DesktopDisplay>, DesktopError>)
        ensures
            final(self).reach() == old(self).reach(),
            call_ensures(old(self).reach().displays, (), r),
    {
        proof {
            use_type_invariant(&*self);
        }
        let r = (self.reach.displays)();
        self.asked = Ghost(self.asked@.push(DeskCall::Looked(desktop_look(r))));
        r
    }

    fn sweep_windows_off(&mut self, display: &DesktopDisplay) -> (r: Result<
        SweepReport,
        DesktopError,
    >)
        ensures
            final(self).reach() == old(self).reach(),
            call_ensures(old(self).reach().sweep, (display,), r),
    {
        proof {
            use_type_invariant(&*self);
        }
        let r = (self.reach.sweep)(display);
        self.asked = Ghost(self.asked@.push(DeskCall::Swept(display.deep_view(), with_message(r))));
        r
    }

    fn restore_windows(&mut self, windows: &[MovedWindow]) -> (r: Result<
        RestoreReport,
        DesktopError,
    >)
        ensures
            final(self).reach() == old(self).reach(),
            call_ensures(old(self).reach().restore, (windows,), r),
    {
        proof {
            use_type_invariant(&*self);
        }
        let r = (self.reach.restore)(windows);
        self.asked = Ghost(self.asked@.push(DeskCall::PutBack(windows@, report_result(r))));
        r
    }

    fn set_primary(&mut self, display: &DesktopDisplay) -> (r: Result<(), DesktopError>)
        ensures
            final(self).reach() == old(self).reach(),
            call_ensures(old(self).reach().promote, (display,), r),
    {
        proof {
            use_type_invariant(&*self);
        }
        let r = (self.reach.promote)(display);
        self.asked = Ghost(self.asked@.push(DeskCall::Promoted(display.deep_view(), tried(r))));
        r
    }

    fn detach(&mut self, display: &DesktopDisplay) -> (r: Result<SavedDisplayMode, DesktopError>)
        ensures
            final(self).reach() == old(self).reach(),
            call_ensures(old(self).reach().detach, (display,), r),
    {
        proof {
            use_type_invariant(&*self);
        }
        let r = (self.reach.detach)(display);
        self.asked = Ghost(
            self.asked@.push(DeskCall::Detached(display.deep_view(), with_message(r))),
        );
        r
    }

    fn attach(&mut self, display: &DesktopDisplay, saved: SavedDisplayMode) -> (r: Result<
        (),
        DesktopError,
    >)
        ensures
            final(self).reach() == old(self).reach(),
            call_ensures(old(self).reach().attach, (display, saved), r),
    {
        proof {
            use_type_invariant(&*self);
        }
        let r = (self.reach.attach)(display, saved);
        self.asked = Ghost(
            self.asked@.push(DeskCall::Attached(display.deep_view(), saved, tried(r))),
        );
        r
    }
}

} // verus!

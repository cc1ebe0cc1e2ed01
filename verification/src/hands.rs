//! What can be asked of a window and done to it.
//!
//! Only the system can do it, so each of these is handed in. Everything that is
//! asked or done is kept in a record, in order.

use vstd::prelude::*;

use crate::desktop::Rect;

verus! {

/// One thing that was asked of a window or done to it, with what came back.
pub enum Deed {
    /// It was asked whether the window fills its display.
    Asked(bool),
    /// It was taken out of filling its display.
    Restored,
    /// It was looked for.
    Looked(Option<Rect>),
    /// It was moved to a place, and that was accepted or not.
    Moved(i32, i32, bool),
    /// It was made to fill the display it is on.
    Enlarged,
}

/// What stands behind the hands on a window.
pub struct Grip<
    M: Fn() -> bool,
    R: Fn(),
    G: Fn() -> Option<Rect>,
    P: Fn(i32, i32) -> bool,
    X: Fn(),
> {
    /// Whether it fills its display.
    pub is_maximized: M,
    /// Takes it out of filling its display.
    pub restore: R,
    /// Where it is, where that can be told.
    pub bounds: G,
    /// Moves it and says whether that was accepted.
    pub move_to: P,
    /// Has it fill the display it is on.
    pub maximize: X,
}

impl<M: Fn() -> bool, R: Fn(), G: Fn() -> Option<Rect>, P: Fn(i32, i32) -> bool, X: Fn()> Grip<
    M,
    R,
    G,
    P,
    X,
> {
    /// Everything can be asked and done, and sides that are told fit.
    pub open spec fn ready(self) -> bool {
        &&& call_requires(self.is_maximized, ())
        &&& call_requires(self.restore, ())
        &&& call_requires(self.bounds, ())
        &&& forall|x: i32, y: i32| #[trigger] call_requires(self.move_to, (x, y))
        &&& call_requires(self.maximize, ())
        &&& forall|b: Option<Rect>| #[trigger] call_ensures(self.bounds, (), b) ==> (b matches Some(
            r,
        ) ==> r.fits())
    }

    /// What came back of a deed is what was answered to it.
    pub open spec fn answered(self, deed: Deed) -> bool {
        match deed {
            Deed::Asked(told) => call_ensures(self.is_maximized, (), told),
            Deed::Restored => call_ensures(self.restore, (), ()),
            Deed::Looked(told) => call_ensures(self.bounds, (), told),
            Deed::Moved(x, y, accepted) => call_ensures(self.move_to, (x, y), accepted),
            Deed::Enlarged => call_ensures(self.maximize, (), ()),
        }
    }
}

/// The hands on a window.
pub struct Hands<
    M: Fn() -> bool,
    R: Fn(),
    G: Fn() -> Option<Rect>,
    P: Fn(i32, i32) -> bool,
    X: Fn(),
> {
    grip: Grip<M, R, G, P, X>,
    deeds: Ghost<Seq<Deed>>,
}

impl<M: Fn() -> bool, R: Fn(), G: Fn() -> Option<Rect>, P: Fn(i32, i32) -> bool, X: Fn()> Hands<
    M,
    R,
    G,
    P,
    X,
> {
    #[verifier::type_invariant]
    spec fn ready(self) -> bool {
        self.grip.ready()
    }

    pub closed spec fn grip(self) -> Grip<M, R, G, P, X> {
        self.grip
    }

    /// Everything that was asked of the window and done to it so far.
    pub closed spec fn did(self) -> Seq<Deed> {
        self.deeds@
    }

    pub fn new(grip: Grip<M, R, G, P, X>) -> (r: Self)
        requires
            grip.ready(),
        ensures
            r.grip() == grip,
            r.did() == Seq::<Deed>::empty(),
    {
        Hands { grip, deeds: Ghost(Seq::empty()) }
    }

    pub fn is_maximized(&mut self) -> (r: bool)
        ensures
            final(self).grip() == old(self).grip(),
            final(self).did() == old(self).did().push(Deed::Asked(r)),
            old(self).grip().answered(Deed::Asked(r)),
    {
        proof {
            use_type_invariant(&*self);
        }
        let r = (self.grip.is_maximized)();
        self.deeds = Ghost(self.deeds@.push(Deed::Asked(r)));
        r
    }

    pub fn restore(&mut self)
        ensures
            final(self).grip() == old(self).grip(),
            final(self).did() == old(self).did().push(Deed::Restored),
            old(self).grip().answered(Deed::Restored),
    {
        proof {
            use_type_invariant(&*self);
        }
        (self.grip.restore)();
        self.deeds = Ghost(self.deeds@.push(Deed::Restored));
    }

    pub fn bounds(&mut self) -> (r: Option<Rect>)
        ensures
            final(self).grip() == old(self).grip(),
            final(self).did() == old(self).did().push(Deed::Looked(r)),
            old(self).grip().answered(Deed::Looked(r)),
            r matches Some(b) ==> b.fits(),
    {
        proof {
            use_type_invariant(&*self);
        }
        let r = (self.grip.bounds)();
        self.deeds = Ghost(self.deeds@.push(Deed::Looked(r)));
        r
    }

    pub fn move_to(&mut self, x: i32, y: i32) -> (r: bool)
        ensures
            final(self).grip() == old(self).grip(),
            final(self).did() == old(self).did().push(Deed::Moved(x, y, r)),
            old(self).grip().answered(Deed::Moved(x, y, r)),
    {
        proof {
            use_type_invariant(&*self);
        }
        let r = (self.grip.move_to)(x, y);
        self.deeds = Ghost(self.deeds@.push(Deed::Moved(x, y, r)));
        r
    }

    pub fn maximize(&mut self)
        ensures
            final(self).grip() == old(self).grip(),
            final(self).did() == old(self).did().push(Deed::Enlarged),
            old(self).grip().answered(Deed::Enlarged),
    {
        proof {
            use_type_invariant(&*self);
        }
        (self.grip.maximize)();
        self.deeds = Ghost(self.deeds@.push(Deed::Enlarged));
    }
}

} // verus!

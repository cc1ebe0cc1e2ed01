//! What talks to the monitors of a Windows desktop.
//!
//! Only the system can do it, so each of these is handed in. Everything that is
//! asked and written is kept in a record, in order.

use vstd::prelude::*;

use crate::backend::BackendError;
use crate::edid::{EdidInfo, EdidInfoView};
use crate::powertoys::{looked_up, opt_edid};
use crate::topology::TopologyEntry;
use crate::types::InputCode;
use crate::windows::{exchange, look_of, DdcError, DdcErrorView, Look};

verus! {

/// One thing that was asked or done, with what came back.
pub enum PortCall {
    /// The displays were looked at.
    Looked(Look),
    /// The EDID of a device path was looked up.
    Identified(Seq<char>, Option<EdidInfoView>),
    /// The monitors behind a GDI source were opened and counted.
    Counted(Seq<char>, Result<usize, DdcErrorView>),
    /// A feature of the monitor behind a GDI source was read.
    Got(Seq<char>, u8, Result<u32, DdcErrorView>),
    /// A feature of the monitor behind a GDI source was written.
    Put {
        /// The monitor it was meant for.
        id: Seq<char>,
        gdi: Seq<char>,
        code: u8,
        value: u32,
        out: Result<(), DdcErrorView>,
    },
    /// The monitor behind a GDI source was asked for its capabilities.
    Told(Seq<char>, Result<String, DdcErrorView>),
    /// A number of milliseconds went by.
    Waited(u64),
}

/// The writes among these calls: the monitor each was meant for, and the code.
pub open spec fn puts(calls: Seq<PortCall>) -> Seq<(Seq<char>, InputCode)>
    decreases calls.len(),
{
    if calls.len() == 0 {
        Seq::empty()
    } else {
        let front = puts(calls.drop_last());
        match calls.last() {
            PortCall::Put { id, value, .. } => front.push((id, InputCode(value as u8))),
            _ => front,
        }
    }
}

pub proof fn lemma_puts_add(a: Seq<PortCall>, b: Seq<PortCall>)
    ensures
        puts(a + b) == puts(a) + puts(b),
    decreases b.len(),
{
    if b.len() == 0 {
        assert(a + b =~= a);
        assert(puts(a) + puts(b) =~= puts(a));
    } else {
        lemma_puts_add(a, b.drop_last());
        assert((a + b).drop_last() =~= a + b.drop_last());
        assert((a + b).last() == b.last());
        assert(puts(a + b) =~= puts(a) + puts(b));
    }
}

/// Calls of which none writes hold no write.
pub proof fn lemma_no_puts(calls: Seq<PortCall>)
    requires
        forall|i: int| 0 <= i < calls.len() ==> !(#[trigger] calls[i] is Put),
    ensures
        puts(calls) == Seq::<(Seq<char>, InputCode)>::empty(),
    decreases calls.len(),
{
    if calls.len() > 0 {
        assert forall|i: int| 0 <= i < calls.drop_last().len() implies !(
        #[trigger] calls.drop_last()[i] is Put) by {
            assert(calls.drop_last()[i] == calls[i]);
        }
        lemma_no_puts(calls.drop_last());
        assert(!(calls[calls.len() - 1] is Put));
    }
}

/// Each of these calls in turn, with a wait between two of them.
pub open spec fn with_waits(calls: Seq<PortCall>, ms: u64) -> Seq<PortCall> {
    if calls.len() == 0 {
        Seq::empty()
    } else {
        Seq::new(
            (2 * calls.len() - 1) as nat,
            |k: int|
                if k % 2 == 0 {
                    calls[k / 2]
                } else {
                    PortCall::Waited(ms)
                },
        )
    }
}

/// Waiting writes nothing.
pub proof fn lemma_puts_with_waits(calls: Seq<PortCall>, ms: u64)
    ensures
        puts(with_waits(calls, ms)) == puts(calls),
    decreases calls.len(),
{
    let all = with_waits(calls, ms);
    if calls.len() <= 1 {
        assert(all =~= calls);
    } else {
        let front = with_waits(calls.drop_last(), ms);
        lemma_puts_with_waits(calls.drop_last(), ms);
        assert(all =~= front.push(PortCall::Waited(ms)).push(calls.last()));
        assert(all.drop_last() =~= front.push(PortCall::Waited(ms)));
        assert(front.push(PortCall::Waited(ms)).drop_last() =~= front);
        assert(puts(front.push(PortCall::Waited(ms))) == puts(front));
    }
}

/// `topology` gave this look.
pub open spec fn looked<T: Fn() -> Result<Vec<TopologyEntry>, BackendError>>(
    topology: T,
    look: Look,
) -> bool {
    exists|out: Result<Vec<TopologyEntry>, BackendError>|
        look_of(out) == look && #[trigger] call_ensures(topology, (), out)
}

/// `open_source` was asked to open a GDI source and found so many monitors.
pub open spec fn counted<C: Fn(&String) -> Result<usize, DdcError>>(
    open_source: C,
    gdi: Seq<char>,
    count: Result<usize, DdcErrorView>,
) -> bool {
    exists|name: String, out: Result<usize, DdcError>|
        name@ == gdi && exchange(out) == count && #[trigger] call_ensures(
            open_source,
            (&name,),
            out,
        )
}

/// `get` was asked for a feature of the monitor behind a GDI source.
pub open spec fn got<G: Fn(&String, u8) -> Result<u32, DdcError>>(
    get: G,
    gdi: Seq<char>,
    code: u8,
    out: Result<u32, DdcErrorView>,
) -> bool {
    exists|name: String, raw: Result<u32, DdcError>|
        name@ == gdi && exchange(raw) == out && #[trigger] call_ensures(get, (&name, code), raw)
}

/// `set` was told to write a feature of the monitor behind a GDI source.
pub open spec fn put<S: Fn(&String, u8, u32) -> Result<(), DdcError>>(
    set: S,
    gdi: Seq<char>,
    code: u8,
    value: u32,
    out: Result<(), DdcErrorView>,
) -> bool {
    exists|name: String, raw: Result<(), DdcError>|
        name@ == gdi && exchange(raw) == out && #[trigger] call_ensures(
            set,
            (&name, code, value),
            raw,
        )
}

/// `ask` was asked for the capabilities of the monitor behind a GDI source.
pub open spec fn told<Q: Fn(&String) -> Result<String, DdcError>>(
    ask: Q,
    gdi: Seq<char>,
    out: Result<String, DdcErrorView>,
) -> bool {
    exists|name: String, raw: Result<String, DdcError>|
        name@ == gdi && exchange(raw) == out && #[trigger] call_ensures(ask, (&name,), raw)
}

/// What stands behind the port: `topology` looks at the displays, `lookup`
/// finds the EDID of a device path, `open_source` opens the monitors behind a
/// GDI source and counts them, `get` and `set` exchange a feature with the one
/// that was opened, `ask` asks it for its capabilities, `pause` waits for a
/// number of milliseconds.
pub struct Wires<
    T: Fn() -> Result<Vec<TopologyEntry>, BackendError>,
    E: Fn(&String) -> Option<EdidInfo>,
    C: Fn(&String) -> Result<usize, DdcError>,
    G: Fn(&String, u8) -> Result<u32, DdcError>,
    S: Fn(&String, u8, u32) -> Result<(), DdcError>,
    Q: Fn(&String) -> Result<String, DdcError>,
    P: Fn(u64),
> {
    pub topology: T,
    pub lookup: E,
    pub open_source: C,
    pub get: G,
    pub set: S,
    pub ask: Q,
    pub pause: P,
}

impl<
    T: Fn() -> Result<Vec<TopologyEntry>, BackendError>,
    E: Fn(&String) -> Option<EdidInfo>,
    C: Fn(&String) -> Result<usize, DdcError>,
    G: Fn(&String, u8) -> Result<u32, DdcError>,
    S: Fn(&String, u8, u32) -> Result<(), DdcError>,
    Q: Fn(&String) -> Result<String, DdcError>,
    P: Fn(u64),
> Wires<T, E, C, G, S, Q, P> {
    /// Everything can be asked, and the displays can be numbered.
    pub open spec fn ready(self) -> bool {
        &&& call_requires(self.topology, ())
        &&& forall|entries: Vec<TopologyEntry>|
            #[trigger] call_ensures(
                self.topology,
                (),
                Ok::<Vec<TopologyEntry>, BackendError>(entries),
            ) ==> entries@.len() < u32::MAX
        &&& forall|p: String| #[trigger] call_requires(self.lookup, (&p,))
        &&& forall|p: String| #[trigger] call_requires(self.open_source, (&p,))
        &&& forall|p: String, code: u8| #[trigger] call_requires(self.get, (&p, code))
        &&& forall|p: String, code: u8, value: u32|
            #[trigger] call_requires(self.set, (&p, code, value))
        &&& forall|p: String| #[trigger] call_requires(self.ask, (&p,))
        &&& forall|ms: u64| call_requires(self.pause, (ms,))
    }

    /// What came back of a call is what was answered to it.
    pub open spec fn answered(self, call: PortCall) -> bool {
        match call {
            PortCall::Looked(look) => looked(self.topology, look),
            PortCall::Identified(path, edid) => looked_up(self.lookup, path, edid),
            PortCall::Counted(gdi, count) => counted(self.open_source, gdi, count),
            PortCall::Got(gdi, code, out) => got(self.get, gdi, code, out),
            PortCall::Put { gdi, code, value, out, .. } => put(self.set, gdi, code, value, out),
            PortCall::Told(gdi, out) => told(self.ask, gdi, out),
            PortCall::Waited(ms) => call_ensures(self.pause, (ms,), ()),
        }
    }
}

/// The port to the monitors.
pub struct Port<
    T: Fn() -> Result<Vec<TopologyEntry>, BackendError>,
    E: Fn(&String) -> Option<EdidInfo>,
    C: Fn(&String) -> Result<usize, DdcError>,
    G: Fn(&String, u8) -> Result<u32, DdcError>,
    S: Fn(&String, u8, u32) -> Result<(), DdcError>,
    Q: Fn(&String) -> Result<String, DdcError>,
    P: Fn(u64),
> {
    wires: Wires<T, E, C, G, S, Q, P>,
    calls: Ghost<Seq<PortCall>>,
}

impl<
    T: Fn() -> Result<Vec<TopologyEntry>, BackendError>,
    E: Fn(&String) -> Option<EdidInfo>,
    C: Fn(&String) -> Result<usize, DdcError>,
    G: Fn(&String, u8) -> Result<u32, DdcError>,
    S: Fn(&String, u8, u32) -> Result<(), DdcError>,
    Q: Fn(&String) -> Result<String, DdcError>,
    P: Fn(u64),
> Port<T, E, C, G, S, Q, P> {
    #[verifier::type_invariant]
    spec fn ready(self) -> bool {
        self.wires.ready()
    }

    pub closed spec fn wires(self) -> Wires<T, E, C, G, S, Q, P> {
        self.wires
    }

    /// Everything that was asked and done so far.
    pub closed spec fn calls(self) -> Seq<PortCall> {
        self.calls@
    }

    pub fn new(wires: Wires<T, E, C, G, S, Q, P>) -> (r: Self)
        requires
            wires.ready(),
        ensures
            r.wires() == wires,
            r.calls() == Seq::<PortCall>::empty(),
    {
        Port { wires, calls: Ghost(Seq::empty()) }
    }

    /// Looks at the displays.
    pub fn look(&mut self) -> (r: Result<Vec<TopologyEntry>, BackendError>)
        ensures
            final(self).wires() == old(self).wires(),
            final(self).calls() == old(self).calls().push(PortCall::Looked(look_of(r))),
            old(self).wires().answered(PortCall::Looked(look_of(r))),
            r matches Ok(entries) ==> entries@.len() < u32::MAX,
    {
        proof {
            use_type_invariant(&*self);
        }
        let r = (self.wires.topology)();
        let ghost call = PortCall::Looked(look_of(r));
        assert(self.wires.answered(call));
        self.calls = Ghost(self.calls@.push(call));
        r
    }

    /// Looks up the EDID of a device path.
    pub fn identify(&mut self, path: &String) -> (r: Option<EdidInfo>)
        ensures
            final(self).wires() == old(self).wires(),
            final(self).calls() == old(self).calls().push(PortCall::Identified(path@, opt_edid(r))),
            old(self).wires().answered(PortCall::Identified(path@, opt_edid(r))),
    {
        proof {
            use_type_invariant(&*self);
        }
        let r = (self.wires.lookup)(path);
        let ghost call = PortCall::Identified(path@, opt_edid(r));
        assert(self.wires.answered(call));
        self.calls = Ghost(self.calls@.push(call));
        r
    }

    /// Opens the monitors behind a GDI source and counts them.
    pub fn count(&mut self, gdi: &String) -> (r: Result<usize, DdcError>)
        ensures
            final(self).wires() == old(self).wires(),
            final(self).calls() == old(self).calls().push(PortCall::Counted(gdi@, exchange(r))),
            old(self).wires().answered(PortCall::Counted(gdi@, exchange(r))),
    {
        proof {
            use_type_invariant(&*self);
        }
        let r = (self.wires.open_source)(gdi);
        let ghost call = PortCall::Counted(gdi@, exchange(r));
        assert(self.wires.answered(call));
        self.calls = Ghost(self.calls@.push(call));
        r
    }

    /// Reads a feature of the monitor behind a GDI source.
    pub fn get(&mut self, gdi: &String, code: u8) -> (r: Result<u32, DdcError>)
        ensures
            final(self).wires() == old(self).wires(),
            final(self).calls() == old(self).calls().push(PortCall::Got(gdi@, code, exchange(r))),
            old(self).wires().answered(PortCall::Got(gdi@, code, exchange(r))),
    {
        proof {
            use_type_invariant(&*self);
        }
        let r = (self.wires.get)(gdi, code);
        let ghost call = PortCall::Got(gdi@, code, exchange(r));
        assert(self.wires.answered(call));
        self.calls = Ghost(self.calls@.push(call));
        r
    }

    /// Writes a feature of the monitor behind a GDI source. `id` is the monitor it
    /// is meant for.
    pub fn put(&mut self, id: &str, gdi: &String, code: u8, value: u32) -> (r: Result<(), DdcError>)
        ensures
            final(self).wires() == old(self).wires(),
            final(self).calls() == old(self).calls().push(
                (PortCall::Put { id: id@, gdi: gdi@, code, value, out: exchange(r) }),
            ),
            old(self).wires().answered(
                (PortCall::Put { id: id@, gdi: gdi@, code, value, out: exchange(r) }),
            ),
    {
        proof {
            use_type_invariant(&*self);
        }
        let r = (self.wires.set)(gdi, code, value);
        let ghost call = (PortCall::Put { id: id@, gdi: gdi@, code, value, out: exchange(r) });
        assert(self.wires.answered(call));
        self.calls = Ghost(self.calls@.push(call));
        r
    }

    /// Asks the monitor behind a GDI source for its capabilities.
    pub fn ask(&mut self, gdi: &String) -> (r: Result<String, DdcError>)
        ensures
            final(self).wires() == old(self).wires(),
            final(self).calls() == old(self).calls().push(PortCall::Told(gdi@, exchange(r))),
            old(self).wires().answered(PortCall::Told(gdi@, exchange(r))),
    {
        proof {
            use_type_invariant(&*self);
        }
        let r = (self.wires.ask)(gdi);
        let ghost call = PortCall::Told(gdi@, exchange(r));
        assert(self.wires.answered(call));
        self.calls = Ghost(self.calls@.push(call));
        r
    }

    /// Waits for a number of milliseconds.
    pub fn wait(&mut self, ms: u64)
        ensures
            final(self).wires() == old(self).wires(),
            final(self).calls() == old(self).calls().push(PortCall::Waited(ms)),
            old(self).wires().answered(PortCall::Waited(ms)),
    {
        proof {
            use_type_invariant(&*self);
        }
        (self.wires.pause)(ms);
        let ghost call = PortCall::Waited(ms);
        assert(self.wires.answered(call));
        self.calls = Ghost(self.calls@.push(call));
    }
}

} // verus!

//! Which physical monitor a display is, decided before any DDC is attempted.
//!
//! Everything here is pure. It works on the topology Windows reported and
//! decides whether, and how, a display can be addressed. The calls into the
//! system live elsewhere, so the rules that keep a write off the wrong monitor
//! hold on every platform.

use vstd::prelude::*;
use vstd::slice::slice_subrange;

use crate::backend::{BackendError, BackendErrorView};
use crate::digits::{dec, decimal, hex, hex_padded};
use crate::edid::{EdidInfo, EdidInfoView};
use crate::mccs::{parse_vcp_features, values_of, vcp_features};
use crate::seqs::{
    lemma_filter_members, lemma_filter_no_one, lemma_filter_one, lemma_filter_take,
    lemma_filter_take_none, lemma_filter_twice, lemma_filter_two,
};
use crate::text::{
    cat3, cat4, cat5, chars_of, copy_opt, cut_out, eq_ignore_case, has_text, last_at,
    law_a_text_is_trimmed_one_way, law_nothing_but_case_is_ignored, lemma_has_text_between,
    lower_all, occurs_at, rfind, same_chars_ignoring_case, same_ignoring_case, spelled_alike,
    string_of, trim, trimmed,
};
use crate::tries::{at_most, repeat, repeated, took_turns, Answer, Tries};
use crate::types::{
    standard_name, InputCapabilities, InputCapabilitiesView, InputCode, InputReading,
    InputReadingView, InputSourceOption, InputSourceOptionView, MonitorIdentity,
    MonitorIdentityView, Transport, TransportView,
};

verus! {

/// VCP feature 0x60, Input Source.
pub const INPUT_SOURCE: u8 = 0x60;

/// What Windows reports when a monitor answers but has no such VCP feature.
/// `ERROR_GRAPHICS_DDCCI_VCP_NOT_SUPPORTED`.
pub const VCP_NOT_SUPPORTED: u32 = 0xC026_2584;

/// One display as Windows' display topology reports it.
#[derive(Debug, PartialEq, Eq)]
pub struct TopologyEntry {
    /// Device interface path, e.g. `\\?\DISPLAY#AOC2702#4&34b9e9a7&0&UID4165#{e6f0...}`.
    pub device_path: String,
    /// GDI source name, e.g. `\\.\DISPLAY2`. The only way to reach a
    /// display's physical monitor through the Monitor Configuration API.
    pub gdi_name: String,
    /// The built-in laptop panel, which has no inputs to switch.
    pub internal: bool,
    /// Part of the desktop. A detached display has no GDI source, so there is
    /// nothing to address it through.
    pub attached: bool,
}

pub struct TopologyEntryView {
    pub device_path: Seq<char>,
    pub gdi_name: Seq<char>,
    pub internal: bool,
    pub attached: bool,
}

impl DeepView for TopologyEntry {
    type V = TopologyEntryView;

    open spec fn deep_view(&self) -> TopologyEntryView {
        TopologyEntryView {
            device_path: self.device_path@,
            gdi_name: self.gdi_name@,
            internal: self.internal,
            attached: self.attached,
        }
    }
}

impl Clone for TopologyEntry {
    fn clone(&self) -> (r: Self)
        ensures
            r == *self,
    {
        TopologyEntry {
            device_path: self.device_path.clone(),
            gdi_name: self.gdi_name.clone(),
            internal: self.internal,
            attached: self.attached,
        }
    }
}

// ---------------------------------------------------------------------------
// Ids
// ---------------------------------------------------------------------------

/// A device path without the interface GUID behind its last `#{`.
pub open spec fn id_of(device_path: Seq<char>) -> Seq<char> {
    let t = trimmed(device_path);
    if has_text(t, "#{"@) {
        t.take(choose|at: int| last_at(t, "#{"@, at))
    } else {
        t
    }
}

/// Whether two paths address the same display. Exact, not a prefix match:
/// `...UID4165` must never match `...UID41650`.
pub open spec fn same_id(device_path: Seq<char>, id: Seq<char>) -> bool {
    id_of(device_path).len() > 0 && same_ignoring_case(id_of(device_path), id_of(id))
}

/// The id this backend gives a display: its device path without the
/// interface GUID.
///
/// It is the format the PowerToys backend used, deliberately, so a
/// configuration written against that backend keeps binding unchanged.
pub fn backend_id(device_path: &str) -> (r: String)
    ensures
        r@ == id_of(device_path@),
{
    let cs = chars_of(device_path);
    let t = trim(cs.as_slice());
    let mark = chars_of("#{");
    match rfind(t, mark.as_slice()) {
        Some(at) => {
            proof {
                assert(occurs_at(t@, "#{"@, at as int));
                let chosen = choose|c: int| last_at(t@, "#{"@, c);
                assert(last_at(t@, "#{"@, at as int));
                assert(chosen == at) by {
                    if chosen < at {
                        assert(occurs_at(t@, "#{"@, at as int));
                    } else if at < chosen {
                        assert(occurs_at(t@, "#{"@, chosen));
                    }
                }
            }
            let front = slice_subrange(t, 0, at);
            assert(front@ =~= t@.take(at as int));
            string_of(front)
        },
        None => string_of(t),
    }
}

/// Whether two paths address the same display.
pub fn same_display(device_path: &str, id: &str) -> (r: bool)
    ensures
        r == same_id(device_path@, id@),
{
    let a = chars_of(backend_id(device_path).as_str());
    let b = chars_of(backend_id(id).as_str());
    a.len() > 0 && same_chars_ignoring_case(a.as_slice(), b.as_slice())
}

// ---------------------------------------------------------------------------
// Refusals
// ---------------------------------------------------------------------------

/// Why a display cannot be written to right now.
#[derive(Debug, Clone, Copy, PartialEq, Eq, Structural)]
pub enum Refusal {
    /// Nothing Windows reports has this id.
    Absent,
    /// More than one display has this id, and they cannot be told apart.
    Ambiguous(usize),
    /// The built-in laptop panel.
    Internal,
    /// Connected, but not part of the desktop.
    Detached,
    /// The desktop mirrors this display with others, so they share one GDI
    /// source. Windows returns their physical monitors in an order nothing
    /// ties to a display, and picking one would be a guess.
    Mirrored(usize),
}

/// How a refusal is told.
pub open spec fn refusal_error(refusal: Refusal, id: Seq<char>) -> BackendErrorView {
    match refusal {
        Refusal::Absent => BackendErrorView::MonitorNotFound {
            detail: "nothing Windows reports right now has the id `"@ + id + "`"@,
        },
        Refusal::Ambiguous(n) => BackendErrorView::MonitorNotFound {
            detail: decimal(n as nat) + " displays share the id `"@ + id
                + "`, and there is no way to tell which is which; refusing to guess"@,
        },
        Refusal::Internal => BackendErrorView::Unsupported {
            detail: "`"@ + id + "` is the built-in panel, which has no inputs to switch"@,
        },
        Refusal::Detached => BackendErrorView::MonitorNotFound {
            detail: "`"@ + id
                + "` is connected but not part of the desktop, so Windows offers no way to talk to it. Turn it back on in Settings > System > Display."@,
        },
        Refusal::Mirrored(n) => BackendErrorView::Unsupported {
            detail: "`"@ + id + "` is mirrored with "@ + decimal((n - 1) as nat)
                + " other display(s). Windows returns mirrored monitors in an order nothing ties to a particular display, so a write could land on the wrong one. Set the displays to Extend in Settings > System > Display."@,
        },
    }
}

pub open spec fn transient(refusal: Refusal) -> bool {
    refusal is Absent || refusal is Detached || refusal is Mirrored
}

impl Refusal {
    pub fn into_error(self, id: &str) -> (r: BackendError)
        requires
            self matches Refusal::Mirrored(n) ==> n > 0,
        ensures
            r.deep_view() == refusal_error(self, id@),
    {
        match self {
            Refusal::Absent => BackendError::MonitorNotFound {
                detail: cat3("nothing Windows reports right now has the id `", id, "`"),
            },
            Refusal::Ambiguous(n) => BackendError::MonitorNotFound {
                detail: cat4(
                    dec(n as u64).as_str(),
                    " displays share the id `",
                    id,
                    "`, and there is no way to tell which is which; refusing to guess",
                ),
            },
            Refusal::Internal => BackendError::Unsupported {
                detail: cat3("`", id, "` is the built-in panel, which has no inputs to switch"),
            },
            Refusal::Detached => BackendError::MonitorNotFound {
                detail: cat3(
                    "`",
                    id,
                    "` is connected but not part of the desktop, so Windows offers no way to talk to it. Turn it back on in Settings > System > Display.",
                ),
            },
            Refusal::Mirrored(n) => BackendError::Unsupported {
                detail: cat5(
                    "`",
                    id,
                    "` is mirrored with ",
                    dec((n - 1) as u64).as_str(),
                    " other display(s). Windows returns mirrored monitors in an order nothing ties to a particular display, so a write could land on the wrong one. Set the displays to Extend in Settings > System > Display.",
                ),
            },
        }
    }

    /// Whether waiting could change the answer.
    ///
    /// Right after a monitor changes input, Windows spends a second or two
    /// re-detecting its displays, and in that window the topology is briefly
    /// wrong: a panel missing, detached, or two panels shown as mirrored. The
    /// same answers from a settled desktop are real. An id shared by two
    /// displays, or the built-in panel, is structural and will not change.
    pub fn may_be_transient(&self) -> (r: bool)
        ensures
            r == transient(*self),
    {
        match self {
            Refusal::Absent | Refusal::Detached | Refusal::Mirrored(_) => true,
            _ => false,
        }
    }
}

/// An answer that may change if it is asked for again.
pub open spec fn may_change<T>(answer: Result<T, Refusal>) -> bool {
    answer matches Err(refusal) && transient(refusal)
}

/// These answers were given in turn: each but the last may change, and one that
/// may change is the last only when there were no attempts left.
pub open spec fn waited_out<T>(answers: Seq<Result<T, Refusal>>, attempts: usize) -> bool {
    &&& 1 <= answers.len() <= at_most(attempts)
    &&& forall|i: int| 0 <= i < answers.len() - 1 ==> may_change(#[trigger] answers[i])
    &&& may_change(answers.last()) ==> answers.len() == at_most(attempts)
}

/// An answer that cannot change costs no waiting: where the first one is such,
/// nothing else is asked.
pub proof fn law_a_lasting_answer_costs_no_waiting<T>(
    answers: Seq<Result<T, Refusal>>,
    attempts: usize,
)
    requires
        waited_out(answers, attempts),
    ensures
        !may_change(answers[0]) ==> answers.len() == 1,
        answers.last() is Ok ==> forall|i: int|
            0 <= i < answers.len() - 1 ==> (#[trigger] answers[i]) is Err,
{
    if answers.len() > 1 {
        assert(may_change(answers[0]));
    }
    assert forall|i: int| 0 <= i < answers.len() - 1 implies (#[trigger] answers[i]) is Err by {
        assert(may_change(answers[i]));
    }
}

impl<T> Answer for Result<T, Refusal> {
    open spec fn fleeting(&self) -> bool {
        may_change(*self)
    }

    fn is_fleeting(&self) -> (r: bool) {
        match self {
            Err(refusal) => refusal.may_be_transient(),
            Ok(_) => false,
        }
    }
}

/// Something was asked until it settled, with one wait between two questions,
/// and nothing else was done.
pub open spec fn settled<T, G, A: Tries<G, Result<T, Refusal>>>(
    attempts: usize,
    goal: G,
    before: Seq<A::Step>,
    after: Seq<A::Step>,
    answers: Seq<Result<T, Refusal>>,
    steps: Seq<A::Step>,
) -> bool {
    &&& waited_out(answers, attempts)
    &&& took_turns::<G, Result<T, Refusal>, A>(goal, answers, steps)
    &&& after == before + steps
}

/// Keep asking until the answer is not a transient refusal, or time runs out.
///
/// How to ask and how to wait is up to `tries`. Whatever is finally returned
/// was true at the moment it was returned; this never turns a refusal into
/// permission, it only declines to give up early.
pub fn settle<T, G, A: Tries<G, Result<T, Refusal>>>(
    attempts: usize,
    tries: &mut A,
    goal: &G,
) -> (r: Result<T, Refusal>)
    ensures
        exists|answers: Seq<Result<T, Refusal>>, steps: Seq<A::Step>|
            #[trigger] settled::<T, G, A>(
                attempts,
                *goal,
                old(tries).steps(),
                final(tries).steps(),
                answers,
                steps,
            ) && answers.last() == r,
{
    let ghost before = tries.steps();
    let r = repeat(attempts, tries, goal);
    proof {
        let (answers, steps) = choose|answers: Seq<Result<T, Refusal>>, steps: Seq<A::Step>|
            #[trigger] repeated::<G, Result<T, Refusal>, A>(
                attempts,
                *goal,
                before,
                tries.steps(),
                answers,
                steps,
            ) && answers.last() == r;
        assert forall|i: int| 0 <= i < answers.len() - 1 implies may_change(
            #[trigger] answers[i],
        ) by {
            assert(answers[i].fleeting());
        }
        assert(settled::<T, G, A>(attempts, *goal, before, tries.steps(), answers, steps));
    }
    r
}

// ---------------------------------------------------------------------------
// Locating
// ---------------------------------------------------------------------------

/// Holds of the displays with an id.
pub open spec fn with_id(id: Seq<char>) -> spec_fn(TopologyEntryView) -> bool {
    |e: TopologyEntryView| same_id(e.device_path, id)
}

/// Holds of the displays that are part of the desktop.
pub open spec fn is_attached() -> spec_fn(TopologyEntryView) -> bool {
    |e: TopologyEntryView| e.attached
}

/// Holds of the displays of the desktop behind a GDI source.
pub open spec fn behind(gdi_name: Seq<char>) -> spec_fn(TopologyEntryView) -> bool {
    |e: TopologyEntryView| e.attached && same_ignoring_case(e.gdi_name, gdi_name)
}

/// The one display with an id. The same display listed twice, once attached
/// and once not, is one display; anything else is a genuine ambiguity.
pub open spec fn chosen_entry(entries: Seq<TopologyEntryView>, id: Seq<char>) -> Result<
    TopologyEntryView,
    Refusal,
> {
    let found = entries.filter(with_id(id));
    let attached = found.filter(is_attached());
    if found.len() == 0 {
        Err(Refusal::Absent)
    } else if found.len() == 1 {
        Ok(found[0])
    } else if attached.len() == 1 {
        Ok(attached[0])
    } else {
        Err(Refusal::Ambiguous(found.len() as usize))
    }
}

/// The display with an id, if it can be addressed unambiguously.
pub open spec fn located(entries: Seq<TopologyEntryView>, id: Seq<char>) -> Result<
    TopologyEntryView,
    Refusal,
> {
    match chosen_entry(entries, id) {
        Err(refusal) => Err(refusal),
        Ok(entry) => if entry.internal {
            Err(Refusal::Internal)
        } else if !entry.attached || entry.gdi_name.len() == 0 {
            Err(Refusal::Detached)
        } else if entries.filter(behind(entry.gdi_name)).len() > 1 {
            Err(Refusal::Mirrored(entries.filter(behind(entry.gdi_name)).len() as usize))
        } else {
            Ok(entry)
        },
    }
}

pub open spec fn entry_result(r: Result<&TopologyEntry, Refusal>) -> Result<
    TopologyEntryView,
    Refusal,
> {
    match r {
        Ok(e) => Ok(e.deep_view()),
        Err(refusal) => Err(refusal),
    }
}

fn choose_entry<'a>(entries: &'a [TopologyEntry], id: &str) -> (r: Result<
    &'a TopologyEntry,
    Refusal,
>)
    ensures
        entry_result(r) == chosen_entry(entries.deep_view(), id@),
{
    let ghost es = entries.deep_view();
    let ghost p = with_id(id@);
    let ghost q = is_attached();
    let mut found: Vec<&'a TopologyEntry> = Vec::new();
    let mut i: usize = 0;
    proof {
        lemma_filter_take_none(es, p);
        assert(found.deep_view() =~= es.take(0).filter(p));
    }
    while i < entries.len()
        invariant
            i <= entries.len(),
            es == entries.deep_view(),
            p == with_id(id@),
            found.deep_view() == es.take(i as int).filter(p),
            found.len() <= i,
        decreases entries.len() - i,
    {
        proof {
            lemma_filter_take(es, p, i as int);
        }
        if same_display(entries[i].device_path.as_str(), id) {
            let ghost before = found.deep_view();
            found.push(&entries[i]);
            assert(found.deep_view() =~= before.push(es[i as int]));
        }
        i += 1;
    }
    proof {
        lemma_filter_take_none(es, p);
    }
    if found.len() == 0 {
        return Err(Refusal::Absent);
    }
    if found.len() == 1 {
        assert(found.deep_view()[0] == found@[0].deep_view());
        return Ok(found[0]);
    }
    let ghost fs = found.deep_view();
    let mut attached: Vec<&'a TopologyEntry> = Vec::new();
    let mut k: usize = 0;
    proof {
        lemma_filter_take_none(fs, q);
        assert(attached.deep_view() =~= fs.take(0).filter(q));
    }
    while k < found.len()
        invariant
            k <= found.len(),
            fs == found.deep_view(),
            q == is_attached(),
            attached.deep_view() == fs.take(k as int).filter(q),
        decreases found.len() - k,
    {
        proof {
            lemma_filter_take(fs, q, k as int);
        }
        let e: &'a TopologyEntry = found[k];
        assert(fs[k as int] == e.deep_view());
        if e.attached {
            let ghost before = attached.deep_view();
            attached.push(e);
            assert(attached.deep_view() =~= before.push(fs[k as int]));
        }
        k += 1;
    }
    proof {
        lemma_filter_take_none(fs, q);
    }
    if attached.len() == 1 {
        assert(attached.deep_view()[0] == attached@[0].deep_view());
        return Ok(attached[0]);
    }
    Err(Refusal::Ambiguous(found.len()))
}

fn count_behind(entries: &[TopologyEntry], gdi_name: &str) -> (r: usize)
    ensures
        r == entries.deep_view().filter(behind(gdi_name@)).len(),
{
    let ghost es = entries.deep_view();
    let ghost p = behind(gdi_name@);
    let mut n: usize = 0;
    let mut i: usize = 0;
    proof {
        lemma_filter_take_none(es, p);
    }
    while i < entries.len()
        invariant
            i <= entries.len(),
            es == entries.deep_view(),
            p == behind(gdi_name@),
            n == es.take(i as int).filter(p).len(),
            n <= i,
        decreases entries.len() - i,
    {
        proof {
            lemma_filter_take(es, p, i as int);
        }
        if entries[i].attached && eq_ignore_case(entries[i].gdi_name.as_str(), gdi_name) {
            assert(p(es[i as int]));
            n += 1;
        } else {
            assert(!p(es[i as int]));
        }
        i += 1;
    }
    proof {
        lemma_filter_take_none(es, p);
    }
    n
}

/// The display with this id, if it can be addressed unambiguously.
pub fn locate<'a>(entries: &'a [TopologyEntry], id: &str) -> (r: Result<&'a TopologyEntry, Refusal>)
    ensures
        entry_result(r) == located(entries.deep_view(), id@),
        r matches Err(Refusal::Mirrored(n)) ==> n > 1,
{
    let entry: &'a TopologyEntry = match choose_entry(entries, id) {
        Ok(e) => e,
        Err(refusal) => {
            return Err(refusal);
        },
    };
    if entry.internal {
        return Err(Refusal::Internal);
    }
    let gdi = chars_of(entry.gdi_name.as_str());
    if !entry.attached || gdi.len() == 0 {
        return Err(Refusal::Detached);
    }
    let sharing: usize = count_behind(entries, entry.gdi_name.as_str());
    if sharing > 1 {
        return Err(Refusal::Mirrored(sharing));
    }
    Ok(entry)
}

// ---------------------------------------------------------------------------
// Identities and replies
// ---------------------------------------------------------------------------

/// Identity for a display, from the topology and the EDID Windows cached.
pub open spec fn identity_view(
    entry: TopologyEntryView,
    index: u32,
    edid: Option<EdidInfoView>,
) -> MonitorIdentityView {
    MonitorIdentityView {
        backend_id: id_of(entry.device_path),
        discovery_index: Some(index),
        manufacturer: match edid {
            Some(e) => e.manufacturer,
            None => None,
        },
        model: match edid {
            Some(e) => e.model_name,
            None => None,
        },
        serial: match edid {
            Some(e) => e.best_serial(),
            None => None,
        },
        transport: if entry.internal {
            TransportView::Internal
        } else {
            TransportView::DdcCi
        },
    }
}

pub open spec fn opt_edid_ref(o: Option<&EdidInfo>) -> Option<EdidInfoView> {
    match o {
        Some(e) => Some(e.deep_view()),
        None => None,
    }
}

/// Identity for a display, from the topology and the EDID Windows cached.
///
/// Nothing here talks to the monitor. Whether a monitor answers a particular
/// DDC request is reported on that request; it never decides whether the
/// monitor is listed.
pub fn identity_for(entry: &TopologyEntry, index: u32, edid: Option<&EdidInfo>) -> (r:
    MonitorIdentity)
    ensures
        r.deep_view() == identity_view(entry.deep_view(), index, opt_edid_ref(edid)),
{
    let manufacturer: Option<String> = match edid {
        Some(e) => copy_opt(&e.manufacturer),
        None => None,
    };
    let model: Option<String> = match edid {
        Some(e) => copy_opt(&e.model_name),
        None => None,
    };
    let serial: Option<String> = match edid {
        Some(e) => e.best_serial(),
        None => None,
    };
    MonitorIdentity {
        backend_id: backend_id(entry.device_path.as_str()),
        discovery_index: Some(index),
        manufacturer,
        model,
        serial,
        transport: if entry.internal {
            Transport::Internal
        } else {
            Transport::DdcCi
        },
    }
}

/// What a VCP 0x60 reply reads as: its low byte, unless that is zero.
pub open spec fn reply_view(current: u32) -> InputReadingView {
    if current % 256 == 0 {
        InputReadingView::ReadFailed {
            detail: "the monitor answered 0x"@ + hex_padded(current as nat, 4)
                + " for its input, which is not an input code"@,
        }
    } else {
        InputReadingView::Value(InputCode((current % 256) as u8))
    }
}

/// Turn a VCP 0x60 reply into a reading.
///
/// The input code is the low byte. A reply of zero is not an input, and is
/// reported as a failed read rather than invented into one.
pub fn reading_from_reply(current: u32) -> (r: InputReading)
    ensures
        r.deep_view() == reply_view(current),
{
    let code: u8 = (current % 256) as u8;
    if code == 0 {
        InputReading::ReadFailed {
            detail: cat3(
                "the monitor answered 0x",
                hex(current, 4).as_str(),
                " for its input, which is not an input code",
            ),
        }
    } else {
        InputReading::Value(InputCode(code))
    }
}

pub open spec fn standard_options(codes: Seq<u8>) -> Seq<InputSourceOptionView> {
    codes.map_values(|c: u8| InputSourceOptionView::standard(InputCode(c)))
}

/// What a monitor's capabilities string claims about feature 0x60.
pub open spec fn claimed(caps: Seq<char>) -> Result<InputCapabilitiesView, Seq<char>> {
    match vcp_features(caps) {
        Err(e) => Err(e.message()),
        Ok(features) => {
            let present = features.contains_key(INPUT_SOURCE);
            Ok(
                InputCapabilitiesView {
                    feature_present: present,
                    options: if present {
                        standard_options(features[INPUT_SOURCE])
                    } else {
                        Seq::empty()
                    },
                    raw_capabilities: Some(caps),
                    raw_output: caps,
                },
            )
        },
    }
}

pub open spec fn claimed_result(r: Result<InputCapabilities, String>) -> Result<
    InputCapabilitiesView,
    Seq<char>,
> {
    match r {
        Ok(c) => Ok(c.deep_view()),
        Err(e) => Err(e@),
    }
}

/// What a monitor's capabilities string claims about feature 0x60.
pub fn capabilities_from(caps: &str) -> (r: Result<InputCapabilities, String>)
    ensures
        claimed_result(r) == claimed(caps@),
{
    let features = match parse_vcp_features(caps) {
        Ok(f) => f,
        Err(e) => {
            return Err(e.to_string());
        },
    };
    let mut options: Vec<InputSourceOption> = Vec::new();
    let mut present: bool = false;
    match values_of(&features, INPUT_SOURCE) {
        Some(codes) => {
            present = true;
            let ghost want = standard_options(codes@);
            let mut i: usize = 0;
            assert(options.deep_view() =~= want.take(0));
            while i < codes.len()
                invariant
                    i <= codes.len(),
                    want == standard_options(codes@),
                    options.deep_view() == want.take(i as int),
                decreases codes.len() - i,
            {
                let ghost before = options.deep_view();
                options.push(InputSourceOption::standard(InputCode(codes[i])));
                assert(options.deep_view() =~= before.push(want[i as int]));
                assert(want.take(i as int + 1) =~= want.take(i as int).push(want[i as int]));
                i += 1;
            }
            assert(want.take(want.len() as int) =~= want);
        },
        None => {
            assert(options.deep_view() =~= Seq::<InputSourceOptionView>::empty());
        },
    }
    Ok(
        InputCapabilities {
            feature_present: present,
            options,
            raw_capabilities: Some(caps.to_owned()),
            raw_output: caps.to_owned(),
        },
    )
}

// ---------------------------------------------------------------------------
// What the topology promises
// ---------------------------------------------------------------------------

/// A display that is addressed is one that Windows reports, has the id that
/// was asked for, is not the built-in panel, is part of the desktop, and has
/// its GDI source to itself.
pub proof fn law_an_addressed_display_is_unambiguous(
    entries: Seq<TopologyEntryView>,
    id: Seq<char>,
)
    requires
        located(entries, id) is Ok,
    ensures
        ({
            let e = located(entries, id)->Ok_0;
            &&& entries.contains(e)
            &&& same_id(e.device_path, id)
            &&& !e.internal
            &&& e.attached
            &&& e.gdi_name.len() > 0
            &&& entries.filter(behind(e.gdi_name)).len() <= 1
        }),
{
    let found = entries.filter(with_id(id));
    let attached = found.filter(is_attached());
    lemma_filter_members(entries, with_id(id));
    lemma_filter_members(found, is_attached());
    let e = located(entries, id)->Ok_0;
    if found.len() == 1 {
        assert(with_id(id)(found[0]));
    } else {
        assert(is_attached()(attached[0]));
        assert(found.contains(attached[0]));
        let k = choose|k: int| 0 <= k < found.len() && found[k] == attached[0];
        assert(with_id(id)(found[k]));
    }
}

/// Two displays of the desktop behind one GDI source are never addressed,
/// neither of them.
pub proof fn law_mirrored_displays_are_refused(
    entries: Seq<TopologyEntryView>,
    id: Seq<char>,
    i: int,
    j: int,
)
    requires
        located(entries, id) is Ok,
        0 <= i < j < entries.len(),
        entries[i].attached && entries[j].attached,
    ensures
        !(same_ignoring_case(entries[i].gdi_name, (located(entries, id)->Ok_0).gdi_name)
            && same_ignoring_case(entries[j].gdi_name, (located(entries, id)->Ok_0).gdi_name)),
{
    let e = located(entries, id)->Ok_0;
    let p = behind(e.gdi_name);
    if p(entries[i]) && p(entries[j]) {
        lemma_filter_two(entries, p, i, j);
    }
}

/// An id that is longer or shorter is another display, whatever it begins
/// with.
pub proof fn law_ids_match_whole(device_path: Seq<char>, id: Seq<char>)
    requires
        same_id(device_path, id),
    ensures
        id_of(device_path).len() == id_of(id).len(),
{
    let a = id_of(device_path);
    let b = id_of(id);
    assert(lower_all(a).len() == a.len());
    assert(lower_all(b).len() == b.len());
}

// ---------------------------------------------------------------------------
// Laws of addressing
// ---------------------------------------------------------------------------

/// Whether a number sign and an opening brace stand side by side in a text.
pub open spec fn opens_a_class(s: Seq<char>) -> bool {
    exists|i: int| 0 <= i < s.len() - 1 && #[trigger] s[i] == '#' && s[i + 1] == '{'
}

/// An id is what stands before the interface class that a device path ends in,
/// whatever white space is round the path. A path without one is its own id.
pub proof fn law_an_id_stops_at_the_class(
    path: Seq<char>,
    from: int,
    to: int,
    name: Seq<char>,
    class: Seq<char>,
)
    requires
        cut_out(path, from, to),
        path.subrange(from, to) == name + seq!['#', '{'] + class,
        !opens_a_class(class),
    ensures
        id_of(path) == name,
{
    law_a_text_is_trimmed_one_way(path, from, to);
    reveal_strlit("#{");
    let t = trimmed(path);
    let n = name.len() as int;
    assert("#{"@ =~= seq!['#', '{']);
    assert(t.subrange(n, n + 2) =~= "#{"@);
    assert(occurs_at(t, "#{"@, n));
    assert forall|at: int| at > n implies !#[trigger] occurs_at(t, "#{"@, at) by {
        if occurs_at(t, "#{"@, at) {
            let piece = t.subrange(at, at + 2);
            assert(piece[0] == t[at] && piece[1] == t[at + 1]);
            assert("#{"@[0] == '#' && "#{"@[1] == '{');
            assert(t[n + 1] == '{');
            assert(at >= n + 2);
            assert(class[at - n - 2] == t[at] && class[at - n - 1] == t[at + 1]);
        }
    }
    assert(last_at(t, "#{"@, n));
    let at = choose|at: int| last_at(t, "#{"@, at);
    assert(at == n);
    assert(t.take(n) =~= name);
}

/// A path that ends in no interface class is its own id.
pub proof fn law_a_bare_id_is_kept(path: Seq<char>, from: int, to: int)
    requires
        cut_out(path, from, to),
        !opens_a_class(path.subrange(from, to)),
    ensures
        id_of(path) == path.subrange(from, to),
{
    law_a_text_is_trimmed_one_way(path, from, to);
    reveal_strlit("#{");
    let t = trimmed(path);
    if has_text(t, "#{"@) {
        let at = choose|at: int| #[trigger] occurs_at(t, "#{"@, at);
        let piece = t.subrange(at, at + 2);
        assert(piece[0] == t[at] && piece[1] == t[at + 1]);
        assert("#{"@[0] == '#' && "#{"@[1] == '{');
        assert(t[at] == '#');
        assert(opens_a_class(t));
    }
}

/// Two paths are of one display exactly where their ids are spelled alike,
/// letter by letter, whichever case the letters are in. No id is no display's.
pub proof fn law_ids_are_spelled_alike(device_path: Seq<char>, id: Seq<char>)
    ensures
        same_id(device_path, id) <==> id_of(device_path).len() > 0 && spelled_alike(
            id_of(device_path),
            id_of(id),
        ),
{
    law_nothing_but_case_is_ignored(id_of(device_path), id_of(id));
}

/// Whether an id leaves no doubt which entry it means: no other has it, or no
/// other that has it is part of the desktop.
pub open spec fn is_meant(entries: Seq<TopologyEntryView>, id: Seq<char>, i: int) -> bool {
    &&& 0 <= i < entries.len()
    &&& same_id(entries[i].device_path, id)
    &&& {
        ||| forall|j: int|
            0 <= j < entries.len() && j != i ==> !same_id((#[trigger] entries[j]).device_path, id)
        ||| {
            &&& entries[i].attached
            &&& forall|j: int|
                0 <= j < entries.len() && j != i && same_id(
                    (#[trigger] entries[j]).device_path,
                    id,
                ) ==> !entries[j].attached
        }
    }
}

proof fn lemma_meant(entries: Seq<TopologyEntryView>, id: Seq<char>, i: int)
    requires
        is_meant(entries, id, i),
    ensures
        chosen_entry(entries, id) == Ok::<TopologyEntryView, Refusal>(entries[i]),
{
    let p = with_id(id);
    let both = |e: TopologyEntryView| p(e) && is_attached()(e);
    if forall|j: int|
        0 <= j < entries.len() && j != i ==> !same_id((#[trigger] entries[j]).device_path, id) {
        lemma_filter_one(entries, p, i);
    } else {
        lemma_filter_twice(entries, p, is_attached());
        lemma_filter_one(entries, both, i);
        let j = choose|j: int|
            0 <= j < entries.len() && j != i && same_id((#[trigger] entries[j]).device_path, id);
        if i < j {
            lemma_filter_two(entries, p, i, j);
        } else {
            lemma_filter_two(entries, p, j, i);
        }
    }
}

/// A display that an id means is addressed, unless it is the built-in panel, is
/// no part of the desktop, or shares its source with another that is.
pub proof fn law_a_display_that_is_meant_is_addressed(
    entries: Seq<TopologyEntryView>,
    id: Seq<char>,
    i: int,
)
    requires
        is_meant(entries, id, i),
    ensures
        ({
            let e = entries[i];
            let shared = exists|j: int|
                0 <= j < entries.len() && j != i && (#[trigger] entries[j]).attached
                    && spelled_alike(entries[j].gdi_name, e.gdi_name);
            let answer = located(entries, id);
            &&& e.internal ==> answer == Err::<TopologyEntryView, Refusal>(Refusal::Internal)
            &&& !e.internal && (!e.attached || e.gdi_name.len() == 0) ==> answer == Err::<
                TopologyEntryView,
                Refusal,
            >(Refusal::Detached)
            &&& !e.internal && e.attached && e.gdi_name.len() > 0 && shared ==> (answer matches Err(
                refusal,
            ) && refusal is Mirrored)
            &&& !e.internal && e.attached && e.gdi_name.len() > 0 && !shared ==> answer == Ok::<
                TopologyEntryView,
                Refusal,
            >(e)
        }),
{
    lemma_meant(entries, id, i);
    let e = entries[i];
    let p = behind(e.gdi_name);
    if e.attached {
        assert forall|j: int| 0 <= j < entries.len() implies p(#[trigger] entries[j]) == (
        entries[j].attached && spelled_alike(entries[j].gdi_name, e.gdi_name)) by {
            law_nothing_but_case_is_ignored(entries[j].gdi_name, e.gdi_name);
        }
        assert(p(entries[i]));
        if exists|j: int|
            0 <= j < entries.len() && j != i && (#[trigger] entries[j]).attached && spelled_alike(
                entries[j].gdi_name,
                e.gdi_name,
            ) {
            let j = choose|j: int|
                0 <= j < entries.len() && j != i && (#[trigger] entries[j]).attached
                    && spelled_alike(entries[j].gdi_name, e.gdi_name);
            if i < j {
                lemma_filter_two(entries, p, i, j);
            } else {
                lemma_filter_two(entries, p, j, i);
            }
        } else {
            lemma_filter_one(entries, p, i);
        }
    }
}

/// An id that no display has finds none, and one that several have, none of
/// them or two of them on the desktop, is refused rather than guessed at.
pub proof fn law_a_display_that_is_not_meant_is_refused(
    entries: Seq<TopologyEntryView>,
    id: Seq<char>,
)
    requires
        forall|i: int| !#[trigger] is_meant(entries, id, i),
    ensures
        located(entries, id) matches Err(refusal) && (refusal is Absent || refusal is Ambiguous) && (
        refusal is Absent <==> forall|i: int|
            0 <= i < entries.len() ==> !same_id((#[trigger] entries[i]).device_path, id)),
{
    let p = with_id(id);
    if forall|i: int|
        0 <= i < entries.len() ==> !same_id((#[trigger] entries[i]).device_path, id) {
        lemma_filter_no_one(entries, p);
    } else {
        let i = choose|i: int|
            0 <= i < entries.len() && same_id((#[trigger] entries[i]).device_path, id);
        assert(!is_meant(entries, id, i));
        let j = choose|j: int|
            0 <= j < entries.len() && j != i && same_id((#[trigger] entries[j]).device_path, id);
        if i < j {
            lemma_filter_two(entries, p, i, j);
        } else {
            lemma_filter_two(entries, p, j, i);
        }
        let both = |e: TopologyEntryView| p(e) && is_attached()(e);
        lemma_filter_twice(entries, p, is_attached());
        if forall|k: int| 0 <= k < entries.len() ==> !both(#[trigger] entries[k]) {
            lemma_filter_no_one(entries, both);
        } else {
            let k = choose|k: int| 0 <= k < entries.len() && both(#[trigger] entries[k]);
            assert(!is_meant(entries, id, k));
            let m = choose|m: int|
                0 <= m < entries.len() && m != k && same_id(
                    (#[trigger] entries[m]).device_path,
                    id,
                ) && entries[m].attached;
            assert(both(entries[m]));
            if k < m {
                lemma_filter_two(entries, both, k, m);
            } else {
                lemma_filter_two(entries, both, m, k);
            }
        }
    }
}

/// A refusal is worth waiting out unless nothing that Windows does can lift it:
/// a panel stays built in, and displays that share an id go on sharing it.
/// What is said of it names the id that was asked for.
pub proof fn law_a_refusal_names_the_display(refusal: Refusal, id: Seq<char>)
    requires
        refusal matches Refusal::Mirrored(n) ==> n > 0,
    ensures
        transient(refusal) <==> !(refusal is Internal || refusal is Ambiguous),
        refusal is Internal || refusal is Mirrored <==> refusal_error(refusal, id) is Unsupported,
        refusal_error(refusal, id) matches BackendErrorView::Unsupported { detail } ==> has_text(
            detail,
            id,
        ),
        refusal_error(refusal, id) is Unsupported || (refusal_error(refusal, id) matches BackendErrorView::MonitorNotFound {
            detail,
        } && has_text(detail, id)),
{
    match refusal_error(refusal, id) {
        BackendErrorView::Unsupported { detail } => {
            lemma_names(detail, id, refusal);
        },
        BackendErrorView::MonitorNotFound { detail } => {
            lemma_names(detail, id, refusal);
        },
        _ => {},
    }
}

proof fn lemma_names(detail: Seq<char>, id: Seq<char>, refusal: Refusal)
    requires
        refusal_error(refusal, id) == (BackendErrorView::Unsupported { detail })
            || refusal_error(refusal, id) == (BackendErrorView::MonitorNotFound { detail }),
    ensures
        has_text(detail, id),
{
    match refusal {
        Refusal::Absent => {
            lemma_has_text_between("nothing Windows reports right now has the id `"@, id, "`"@);
        },
        Refusal::Ambiguous(n) => {
            let before = decimal(n as nat) + " displays share the id `"@;
            lemma_has_text_between(
                before,
                id,
                "`, and there is no way to tell which is which; refusing to guess"@,
            );
        },
        Refusal::Internal => {
            lemma_has_text_between(
                "`"@,
                id,
                "` is the built-in panel, which has no inputs to switch"@,
            );
        },
        Refusal::Detached => {
            reveal_strlit("`");
            assert(detail.subrange(1, 1int + id.len()) =~= id);
            assert(occurs_at(detail, id, 1));
        },
        Refusal::Mirrored(n) => {
            reveal_strlit("`");
            assert(detail.subrange(1, 1int + id.len()) =~= id);
            assert(occurs_at(detail, id, 1));
        },
    }
}

/// A display is reported under the id of its path and the best serial of its
/// EDID, and as switchable unless it is the built-in panel.
pub proof fn law_a_display_is_reported_as_it_is(
    entry: TopologyEntryView,
    index: u32,
    edid: Option<EdidInfoView>,
)
    ensures
        ({
            let m = identity_view(entry, index, edid);
            &&& m.backend_id == id_of(entry.device_path)
            &&& m.discovery_index == Some(index)
            &&& m.transport is Internal <==> entry.internal
            &&& m.transport is DdcCi <==> !entry.internal
            &&& edid matches Some(e) ==> m.manufacturer == e.manufacturer && m.model == e.model_name
                && m.serial == e.best_serial()
            &&& edid is None ==> m.manufacturer is None && m.model is None && m.serial is None
        }),
{
}

/// Only the low byte of a reply is the input, whatever the monitor puts in the
/// high one, and no input has the code nought.
pub proof fn law_an_input_is_the_low_byte(high: u32, low: u8)
    requires
        high < 0x100_0000,
    ensures
        low != 0 ==> reply_view((high * 256 + low) as u32) == InputReadingView::Value(
            InputCode(low),
        ),
        low == 0 ==> reply_view((high * 256 + low) as u32) is ReadFailed,
{
    let reply = (high * 256 + low) as u32;
    assert(reply == high * 256 + low);
    assert(reply % 256 == low);
}

/// A monitor claims the inputs that its string lists under feature 0x60: each
/// of them, in order, and no others.
pub proof fn law_the_inputs_claimed_are_those_listed(caps: Seq<char>)
    ensures
        vcp_features(caps) matches Ok(features) ==> (claimed(caps) matches Ok(c) && {
            &&& c.feature_present <==> features.contains_key(0x60u8)
            &&& c.raw_capabilities == Some(caps)
            &&& !c.feature_present ==> c.options.len() == 0
            &&& c.feature_present ==> {
                &&& c.options.len() == features[0x60u8].len()
                &&& forall|i: int|
                    0 <= i < c.options.len() ==> (#[trigger] c.options[i]).code == InputCode(
                        features[0x60u8][i],
                    ) && c.options[i].label == standard_name(
                        c.options[i].code,
                    )
            }
        }),
        vcp_features(caps) is Err ==> claimed(caps) is Err,
{
}

} // verus!

//! Doing things to this computer's desktop: handing over the primary role,
//! releasing and claiming a display, and moving windows off it and back.
//!
//! Detaching a display is the only thing here that can leave someone unable to
//! see anything, so a release that cannot be finished is undone as far as it
//! went.

use vstd::prelude::*;

use crate::desktop::{
    can_take_over, desktop_look, law_the_primary_role_goes_to_the_largest, promotion_choice,
    with_message, DeskCall, DesktopDisplay,
    DesktopDisplayView, DesktopManager, MovedWindow, RestoreReport, RestoreReportView,
    SavedDisplayMode, Shown, SweepReport, Tried,
};
use crate::digits::{dec, decimal};
use crate::eventlog::{fields_view, took, EventLog};
use crate::layers::{
    already_attached, already_primary, begin_release, begin_restore, claimed, claimed_lines,
    detach_failed, detach_failure, display_choice, display_for, display_result, end_restore,
    law_a_sweep_can_be_undone, layout_for, no_layout, nothing_on, now_primary, primary_lines,
    other_than, release_start, released, released_lines, restore_start, restored, restored_lines, role_returned,
    saved_layout, swept, swept_after, swept_lines, ReleaseStart, ReleaseStartView, ReleasedState,
    ReleasedStateView, RestoreStart, RestoreStartView, SweptState,
};
use crate::keyed::{
    elsewhere, got, in_order, keys_in, law_what_is_kept_is_found, removed, under,
};
use crate::page::{nothing, said, LineView, Page};
use crate::seqs::{lemma_filter_members, lemma_first_index};
use crate::switch::logged;
use crate::text::texts;
use crate::types::opt_str;

verus! {

// ---------------------------------------------------------------------------
// Answers
// ---------------------------------------------------------------------------

/// The one display that a selector means, from a look at the desktop.
pub open spec fn chosen(name: Seq<char>, look: Shown, selector: Seq<char>) -> Result<
    DesktopDisplayView,
    Seq<char>,
> {
    match look {
        Ok(all) => display_choice(name, all, selector),
        Err(e) => Err(e),
    }
}

fn find<M: DesktopManager>(manager: &mut M, selector: &str) -> (r: (
    Result<DesktopDisplay, String>,
    Ghost<Shown>,
))
    ensures
        final(manager).called() == old(manager).called(),
        final(manager).done() == old(manager).done().push(DeskCall::Looked(r.1@)),
        display_result(r.0) == chosen(old(manager).called(), r.1@, selector@),
{
    let look = manager.displays();
    let ghost seen = desktop_look(look);
    let found = match look {
        Ok(all) => display_for(manager.name(), all.as_slice(), selector),
        Err(e) => Err(e.to_string()),
    };
    (found, Ghost(seen))
}

fn promote<M: DesktopManager>(manager: &mut M, display: &DesktopDisplay) -> (r: Result<(), String>)
    ensures
        final(manager).called() == old(manager).called(),
        final(manager).done() == old(manager).done().push(
            DeskCall::Promoted(display.deep_view(), tried_text(r)),
        ),
{
    match manager.set_primary(display) {
        Ok(_) => Ok(()),
        Err(e) => Err(e.to_string()),
    }
}

pub open spec fn tried_text(r: Result<(), String>) -> Tried {
    match r {
        Ok(_) => Ok(()),
        Err(e) => Err(e@),
    }
}

/// What is asked to give the primary role to whatever display a selector means
/// now.
pub open spec fn role_calls(
    look: Shown,
    found: Result<DesktopDisplayView, Seq<char>>,
    out: Tried,
) -> Seq<DeskCall> {
    match found {
        Ok(d) => seq![DeskCall::Looked(look), DeskCall::Promoted(d, out)],
        Err(_) => seq![DeskCall::Looked(look)],
    }
}

/// The primary role was to go to whatever display the selector means now.
pub open spec fn role_given(
    name: Seq<char>,
    selector: Seq<char>,
    look: Shown,
    found: Result<DesktopDisplayView, Seq<char>>,
    out: Tried,
) -> bool {
    &&& found == chosen(name, look, selector)
    &&& found matches Err(e) ==> out == Err::<(), Seq<char>>(e)
}

fn give_role<M: DesktopManager>(manager: &mut M, selector: &str) -> (r: (
    Result<(), String>,
    Ghost<Shown>,
    Ghost<Result<DesktopDisplayView, Seq<char>>>,
))
    ensures
        final(manager).called() == old(manager).called(),
        role_given(old(manager).called(), selector@, r.1@, r.2@, tried_text(r.0)),
        final(manager).done() == old(manager).done() + role_calls(r.1@, r.2@, tried_text(r.0)),
{
    let ghost before = manager.done();
    let (found, Ghost(look)) = find(manager, selector);
    let ghost seen = display_result(found);
    let r = match found {
        Ok(d) => promote(manager, &d),
        Err(e) => Err(e),
    };
    assert(manager.done() =~= before + role_calls(look, seen, tried_text(r)));
    (r, Ghost(look), Ghost(seen))
}

// ---------------------------------------------------------------------------
// What is said
// ---------------------------------------------------------------------------

/// What a command about the desktop says, and what it comes to: its code, or
/// why it was given up.
#[derive(Debug, PartialEq, Eq)]
pub struct Done {
    /// Said whatever happens next.
    pub page: Page,
    /// What is remembered has changed, and is to be kept before anything else.
    pub keep: bool,
    /// Said once that is done.
    pub after: Page,
    pub result: Result<i32, String>,
}

pub open spec fn end_of(r: Result<i32, String>) -> Result<i32, Seq<char>> {
    match r {
        Ok(code) => Ok(code),
        Err(e) => Err(e@),
    }
}

/// What a command says and comes to, and the one event it logs.
pub struct End {
    pub lines: Seq<LineView>,
    pub keep: bool,
    pub after: Seq<LineView>,
    pub result: Result<i32, Seq<char>>,
    pub event: Option<(Seq<char>, Seq<(Seq<char>, Seq<char>)>)>,
}

/// It was given up.
pub open spec fn given_up(lines: Seq<LineView>, why: Seq<char>) -> End {
    End { lines, keep: false, after: nothing(), result: Err(why), event: None }
}

/// There was nothing to do.
pub open spec fn idle(line: Seq<char>) -> End {
    End { lines: said(line), keep: false, after: nothing(), result: Ok(0), event: None }
}

/// It was done to a display.
pub open spec fn done_to(
    lines: Seq<LineView>,
    keep: bool,
    after: Seq<LineView>,
    kind: Seq<char>,
    label: Seq<char>,
    gdi: Seq<char>,
) -> End {
    End {
        lines,
        keep,
        after,
        result: Ok(0),
        event: Some((kind, seq![("monitor"@, label), ("gdi"@, gdi)])),
    }
}

/// A command ended like this.
pub open spec fn ended(done: Done, before: EventLog, after: EventLog, end: End) -> bool {
    &&& done.page@ == end.lines
    &&& done.keep == end.keep
    &&& done.after@ == end.after
    &&& end_of(done.result) == end.result
    &&& logged(before, after, end.event)
}

fn stopped(page: Page, why: String) -> (r: Done)
    ensures
        r.page == page,
        !r.keep,
        r.after@ == nothing(),
        r.result == Err::<i32, String>(why),
{
    Done { page, keep: false, after: Page::new(), result: Err(why) }
}

fn nothing_to_do(line: String) -> (r: Done)
    ensures
        r.page@ == said(line@),
        !r.keep,
        r.after@ == nothing(),
        r.result == Ok::<i32, String>(0),
{
    let mut page = Page::new();
    page.say(line);
    assert(page@ =~= said(line@));
    Done { page, keep: false, after: Page::new(), result: Ok(0) }
}

fn log_display(log: &mut EventLog, kind: &str, label: &str, gdi: &str)
    ensures
        took(*old(log), *final(log), kind@, seq![("monitor"@, label@), ("gdi"@, gdi@)]),
{
    let fields: [(&str, String); 2] = [("monitor", label.to_owned()), ("gdi", gdi.to_owned())];
    assert(fields_view(fields@) =~= seq![("monitor"@, label@), ("gdi"@, gdi@)]);
    log.append(kind, fields.as_slice());
}

// ---------------------------------------------------------------------------
// primary
// ---------------------------------------------------------------------------

/// How making a display the primary one ends.
pub open spec fn primary_end(
    label: Seq<char>,
    found: Result<DesktopDisplayView, Seq<char>>,
    out: Tried,
) -> End {
    match found {
        Err(e) => given_up(nothing(), e),
        Ok(d) => if d.is_primary {
            idle("`"@ + label + "` is already the primary display. Nothing to do."@)
        } else {
            match out {
                Err(e) => given_up(nothing(), e),
                Ok(_) => done_to(
                    nothing(),
                    false,
                    said("`"@ + label + "` is now the primary display."@),
                    "desktop.set-primary"@,
                    label,
                    d.gdi_name,
                ),
            }
        },
    }
}

/// What is asked of the desktop in order to make a display the primary one.
pub open spec fn primary_calls(
    look: Shown,
    found: Result<DesktopDisplayView, Seq<char>>,
    out: Tried,
) -> Seq<DeskCall> {
    match found {
        Ok(d) => if d.is_primary {
            seq![DeskCall::Looked(look)]
        } else {
            seq![DeskCall::Looked(look), DeskCall::Promoted(d, out)]
        },
        Err(_) => seq![DeskCall::Looked(look)],
    }
}

/// A display was to be made the primary one like this, and nothing else was
/// done.
pub open spec fn primary_asked(
    name: Seq<char>,
    before: Seq<DeskCall>,
    after: Seq<DeskCall>,
    id: Seq<char>,
    look: Shown,
    out: Tried,
) -> bool {
    after == before + primary_calls(look, chosen(name, look, id), out)
}

/// Makes a monitor the primary display.
pub fn set_primary<M: DesktopManager>(
    manager: &mut M,
    id: &str,
    label: &str,
    log: &mut EventLog,
) -> (r: Done)
    ensures
        exists|look: Shown, out: Tried|
            #[trigger] primary_asked(
                old(manager).called(),
                old(manager).done(),
                final(manager).done(),
                id@,
                look,
                out,
            ) && ended(
                r,
                *old(log),
                *final(log),
                primary_end(label@, chosen(old(manager).called(), look, id@), out),
            ),
{
    let ghost name = manager.called();
    let ghost before = manager.done();
    let ghost none: Tried = Ok(());
    let (display, Ghost(look)) = find(manager, id);
    let ghost found = display_result(display);
    let d = match display {
        Ok(d) => d,
        Err(e) => {
            assert(manager.done() =~= before + primary_calls(look, found, none));
            assert(primary_asked(name, before, manager.done(), id@, look, none));
            return stopped(Page::new(), e);
        },
    };
    if d.is_primary {
        assert(manager.done() =~= before + primary_calls(look, found, none));
        assert(primary_asked(name, before, manager.done(), id@, look, none));
        return nothing_to_do(already_primary(label));
    }
    let given = promote(manager, &d);
    let ghost out = tried_text(given);
    assert(manager.done() =~= before + primary_calls(look, found, out));
    assert(primary_asked(name, before, manager.done(), id@, look, out));
    match given {
        Err(e) => stopped(Page::new(), e),
        Ok(_) => {
            log_display(log, "desktop.set-primary", label, d.gdi_name.as_str());
            let mut after = Page::new();
            after.say(now_primary(label));
            assert(after@ =~= primary_end(label@, found, out).after);
            Done { page: Page::new(), keep: false, after, result: Ok(0) }
        },
    }
}

// ---------------------------------------------------------------------------
// release
// ---------------------------------------------------------------------------

/// What the desktop answers while a display is released, question by question.
pub struct ReleaseAnswers {
    /// The first look at the desktop.
    pub seen: Shown,
    /// The display, as it was found.
    pub found: Result<DesktopDisplayView, Seq<char>>,
    /// What else there was to take the primary role.
    pub all: Shown,
    /// What came of handing the role over.
    pub handed: Tried,
    /// The look once the role was elsewhere.
    pub seen_again: Shown,
    /// The display, once the role was elsewhere.
    pub again: Result<DesktopDisplayView, Seq<char>>,
    /// What came of detaching it.
    pub detached: Result<SavedDisplayMode, Seq<char>>,
    /// The look where the role had to be given back.
    pub seen_back: Shown,
    /// The display, where the role had to be given back.
    pub back: Result<DesktopDisplayView, Seq<char>>,
    /// What came of giving it back.
    pub undone: Tried,
}

impl ReleaseAnswers {
    /// The display was the primary one of this desktop.
    pub open spec fn had_role(self) -> bool {
        self.found matches Ok(d) && d.is_attached && d.is_primary
    }

    /// Who the primary role is handed to.
    pub open spec fn heir(self) -> Option<DesktopDisplayView> {
        match (self.found, self.all) {
            (Ok(d), Ok(all)) => if self.had_role() {
                promotion_choice(all, d)
            } else {
                None
            },
            _ => None,
        }
    }

    /// The display that is detached in the end, if it comes to that.
    pub open spec fn leaving(self) -> Option<DesktopDisplayView> {
        match self.found {
            Err(_) => None,
            Ok(d) => if !d.is_attached {
                None
            } else if !d.is_primary {
                Some(d)
            } else if self.heir() is Some && self.handed is Ok {
                match self.again {
                    Ok(now) => Some(now),
                    Err(_) => None,
                }
            } else {
                None
            },
        }
    }
}

/// What is asked of the desktop in order to release a display, in order: where
/// it is, and, for the primary one, what else there is, handing the role over
/// and where the display is then; then detaching it; and, where that fails,
/// giving the role back.
pub open spec fn release_calls(a: ReleaseAnswers) -> Seq<DeskCall> {
    let others = if a.had_role() {
        seq![DeskCall::Looked(a.all)]
    } else {
        Seq::empty()
    };
    let handing = match a.heir() {
        Some(to) => if a.handed is Ok {
            seq![DeskCall::Promoted(to, a.handed), DeskCall::Looked(a.seen_again)]
        } else {
            seq![DeskCall::Promoted(to, a.handed)]
        },
        None => Seq::empty(),
    };
    let detaching = match a.leaving() {
        Some(d) => if a.had_role() && a.detached is Err {
            seq![DeskCall::Detached(d, a.detached)] + role_calls(a.seen_back, a.back, a.undone)
        } else {
            seq![DeskCall::Detached(d, a.detached)]
        },
        None => Seq::empty(),
    };
    seq![DeskCall::Looked(a.seen)] + others + handing + detaching
}

/// A display was to be released like this, and nothing else was done.
pub open spec fn release_asked(
    name: Seq<char>,
    before: Seq<DeskCall>,
    after: Seq<DeskCall>,
    id: Seq<char>,
    a: ReleaseAnswers,
) -> bool {
    &&& after == before + release_calls(a)
    &&& a.found == chosen(name, a.seen, id)
    &&& a.heir() is Some && a.handed is Ok ==> a.again == chosen(name, a.seen_again, id)
    &&& a.leaving() is Some && a.had_role() && a.detached is Err ==> role_given(
        name,
        id,
        a.seen_back,
        a.back,
        a.undone,
    )
}

/// How a release ends once it has come to detaching.
pub open spec fn detach_end(
    label: Seq<char>,
    lines: Seq<LineView>,
    leaving: DesktopDisplayView,
    a: ReleaseAnswers,
) -> End {
    match a.detached {
        Ok(_) => done_to(
            lines,
            true,
            released_lines(label),
            "desktop.release"@,
            label,
            leaving.gdi_name,
        ),
        Err(e) => given_up(
            lines,
            detach_failure(
                e,
                label,
                if a.had_role() {
                    Some(a.undone)
                } else {
                    None
                },
            ),
        ),
    }
}

/// How a release ends.
pub open spec fn release_end(label: Seq<char>, a: ReleaseAnswers) -> End {
    match a.found {
        Err(e) => given_up(nothing(), e),
        Ok(d) => match (a.had_role(), a.all) {
            (true, Err(e)) => given_up(nothing(), e),
            (_, all) => match release_start(
                d,
                match all {
                    Ok(all) => all,
                    Err(_) => Seq::empty(),
                },
                label,
            ) {
                ReleaseStartView::Already(line) => idle(line),
                ReleaseStartView::Stuck(why) => given_up(nothing(), why),
                ReleaseStartView::Detach => detach_end(label, nothing(), d, a),
                ReleaseStartView::Promote { to, line } => match (a.handed, a.again) {
                    (Err(e), _) => given_up(said(line), e),
                    (_, Err(e)) => given_up(said(line), e),
                    (_, Ok(now)) => detach_end(label, said(line), now, a),
                },
            },
        },
    }
}

/// What is remembered after a release: the display and its layout, where it
/// was detached, and nothing new otherwise.
pub open spec fn release_kept(before: ReleasedStateView, id: Seq<char>, a: ReleaseAnswers) ->
    ReleasedStateView {
    match (a.leaving(), a.detached) {
        (Some(_), Ok(saved)) => before.with(id, saved, a.had_role()),
        _ => before,
    }
}

fn take_off<M: DesktopManager>(manager: &mut M, display: &DesktopDisplay) -> (r: Result<
    SavedDisplayMode,
    String,
>)
    ensures
        final(manager).called() == old(manager).called(),
        final(manager).done() == old(manager).done().push(
            DeskCall::Detached(display.deep_view(), mode_text(r)),
        ),
{
    match manager.detach(display) {
        Ok(saved) => Ok(saved),
        Err(e) => Err(e.to_string()),
    }
}

pub open spec fn mode_text(r: Result<SavedDisplayMode, String>) -> Result<
    SavedDisplayMode,
    Seq<char>,
> {
    match r {
        Ok(saved) => Ok(saved),
        Err(e) => Err(e@),
    }
}

pub open spec fn shown_text(r: Result<Vec<DesktopDisplay>, String>) -> Shown {
    match r {
        Ok(all) => Ok(all.deep_view()),
        Err(e) => Err(e@),
    }
}

fn look<M: DesktopManager>(manager: &mut M) -> (r: Result<Vec<DesktopDisplay>, String>)
    ensures
        final(manager).called() == old(manager).called(),
        final(manager).done() == old(manager).done().push(DeskCall::Looked(shown_text(r))),
{
    match manager.displays() {
        Ok(all) => Ok(all),
        Err(e) => Err(e.to_string()),
    }
}

/// Releases a display from this desktop. A primary display hands its role over
/// first, and gets it back where the detach then fails.
pub fn release<M: DesktopManager>(
    manager: &mut M,
    id: &str,
    label: &str,
    state: &mut ReleasedState,
    log: &mut EventLog,
) -> (r: Done)
    requires
        old(state).wf(),
    ensures
        final(state).wf(),
        exists|a: ReleaseAnswers|
            #[trigger] release_asked(
                old(manager).called(),
                old(manager).done(),
                final(manager).done(),
                id@,
                a,
            ) && ended(
                r,
                *old(log),
                *final(log),
                release_end(label@, a),
            ) && final(state).deep_view() == release_kept(old(state).deep_view(), id@, a),
{
    let ghost name = manager.called();
    let ghost start = manager.done();
    let (display, Ghost(seen)) = find(manager, id);
    let ghost mut a = ReleaseAnswers {
        seen,
        found: display_result(display),
        all: Ok(Seq::empty()),
        handed: Ok(()),
        seen_again: Err(Seq::empty()),
        again: Err(Seq::empty()),
        detached: Err(Seq::empty()),
        seen_back: Err(Seq::empty()),
        back: Err(Seq::empty()),
        undone: Ok(()),
    };
    let found = match display {
        Ok(d) => d,
        Err(e) => {
            assert(manager.done() =~= start + release_calls(a));
            assert(release_asked(name, start, manager.done(), id@, a));
            return stopped(Page::new(), e);
        },
    };
    let was_primary = found.is_attached && found.is_primary;
    let mut all: Vec<DesktopDisplay> = Vec::new();
    assert(all.deep_view() =~= Seq::<DesktopDisplayView>::empty());
    if was_primary {
        match look(manager) {
            Ok(seen) => {
                proof {
                    a = ReleaseAnswers { all: Ok(seen.deep_view()), ..a };
                }
                all = seen;
            },
            Err(e) => {
                proof {
                    a = ReleaseAnswers { all: Err(e@), ..a };
                    assert(manager.done() =~= start + release_calls(a));
                    assert(release_asked(name, start, manager.done(), id@, a));
                }
                return stopped(Page::new(), e);
            },
        }
    }
    assert(a.had_role() == was_primary);
    assert(a.all == Ok::<Seq<DesktopDisplayView>, Seq<char>>(all.deep_view()));
    let mut page = Page::new();
    let leaving = match begin_release(&found, all.as_slice(), label) {
        ReleaseStart::Already(line) => {
            assert(manager.done() =~= start + release_calls(a));
            assert(release_asked(name, start, manager.done(), id@, a));
            return nothing_to_do(line);
        },
        ReleaseStart::Stuck(why) => {
            assert(manager.done() =~= start + release_calls(a));
            assert(release_asked(name, start, manager.done(), id@, a));
            return stopped(page, why);
        },
        ReleaseStart::Promote { to, line } => {
            page.say(line);
            assert(page@ =~= said(line@));
            assert(a.heir() == Some(to.deep_view()));
            let handed = promote(manager, &to);
            proof {
                a = ReleaseAnswers { handed: tried_text(handed), ..a };
                assert(a.heir() == Some(to.deep_view()));
            }
            match handed {
                Err(e) => {
                    assert(manager.done() =~= start + release_calls(a));
                    assert(release_asked(name, start, manager.done(), id@, a));
                    return stopped(page, e);
                },
                Ok(_) => {},
            }
            let (again, Ghost(seen_again)) = find(manager, id);
            proof {
                a = ReleaseAnswers { seen_again, again: display_result(again), ..a };
                assert(a.heir() == Some(to.deep_view()));
            }
            match again {
                Err(e) => {
                    assert(manager.done() =~= start + release_calls(a));
                    assert(release_asked(name, start, manager.done(), id@, a));
                    return stopped(page, e);
                },
                Ok(now) => now,
            }
        },
        ReleaseStart::Detach => found,
    };
    assert(a.leaving() == Some(leaving.deep_view()));
    let off = take_off(manager, &leaving);
    let ghost before = a;
    proof {
        a = ReleaseAnswers { detached: mode_text(off), ..a };
        assert(a.heir() == before.heir());
        assert(a.leaving() == Some(leaving.deep_view()));
    }
    match off {
        Err(e) => {
            let undo: Option<Result<(), String>> = if was_primary {
                let (given, Ghost(seen_back), Ghost(back)) = give_role(manager, id);
                proof {
                    a = ReleaseAnswers { seen_back, back, undone: tried_text(given), ..a };
                    assert(a.heir() == before.heir());
                    assert(a.leaving() == Some(leaving.deep_view()));
                }
                Some(given)
            } else {
                None
            };
            assert(manager.done() =~= start + release_calls(a));
            assert(release_asked(name, start, manager.done(), id@, a));
            stopped(page, detach_failed(e.as_str(), label, undo))
        },
        Ok(saved) => {
            state.remember(id, saved, was_primary);
            log_display(log, "desktop.release", label, leaving.gdi_name.as_str());
            assert(manager.done() =~= start + release_calls(a));
            assert(release_asked(name, start, manager.done(), id@, a));
            Done { page, keep: true, after: released(label), result: Ok(0) }
        },
    }
}

/// A release that fails is not remembered as one. Where the display was the
/// primary one, it is detached only once another display has the role, and a
/// failure says what came of giving the role back.
pub proof fn law_a_failed_release_is_undone(
    before: ReleasedStateView,
    id: Seq<char>,
    label: Seq<char>,
    a: ReleaseAnswers,
)
    ensures
        release_end(label, a).result is Err ==> release_kept(before, id, a) == before,
        release_end(label, a).event is Some <==> a.leaving() is Some && a.detached is Ok,
        a.had_role() && a.leaving() is Some ==> a.heir() is Some && a.handed is Ok,
        a.had_role() && a.leaving() is Some ==> (a.detached matches Err(e) ==> release_end(
            label,
            a,
        ).result == Err::<i32, Seq<char>>(detach_failure(e, label, Some(a.undone)))),
        a.had_role() ==> (a.leaving() matches Some(d) ==> release_calls(a).take(5) == seq![
            DeskCall::Looked(a.seen),
            DeskCall::Looked(a.all),
            DeskCall::Promoted(a.heir()->0, a.handed),
            DeskCall::Looked(a.seen_again),
            DeskCall::Detached(d, a.detached),
        ]),
        a.had_role() && a.leaving() is Some && a.detached is Err ==> release_calls(a).skip(5)
            == role_calls(a.seen_back, a.back, a.undone),
{
    if a.had_role() && a.leaving() is Some {
        let d = a.leaving()->0;
        let five = seq![
            DeskCall::Looked(a.seen),
            DeskCall::Looked(a.all),
            DeskCall::Promoted(a.heir()->0, a.handed),
            DeskCall::Looked(a.seen_again),
            DeskCall::Detached(d, a.detached),
        ];
        if a.detached is Err {
            assert(release_calls(a) =~= five + role_calls(a.seen_back, a.back, a.undone));
        } else {
            assert(release_calls(a) =~= five);
        }
        assert(release_calls(a).take(5) =~= five);
        if a.detached is Err {
            assert(release_calls(a).skip(5) =~= role_calls(a.seen_back, a.back, a.undone));
        }
    }
}

// ---------------------------------------------------------------------------
// claim
// ---------------------------------------------------------------------------

/// What the desktop answers while a display is claimed, question by question.
pub struct ClaimAnswers {
    /// The first look at the desktop.
    pub seen: Shown,
    /// The display, as it was found.
    pub found: Result<DesktopDisplayView, Seq<char>>,
    /// What came of attaching it.
    pub attached: Tried,
    /// The look once it was attached.
    pub seen_again: Shown,
    /// The display, once it was attached.
    pub again: Result<DesktopDisplayView, Seq<char>>,
    /// What came of giving the primary role back.
    pub given: Tried,
}

impl ClaimAnswers {
    /// The display that is to be attached.
    pub open spec fn joining(self) -> Option<DesktopDisplayView> {
        match self.found {
            Ok(d) => if d.is_attached {
                None
            } else {
                Some(d)
            },
            Err(_) => None,
        }
    }

    /// The role goes back to the display, once it is attached.
    pub open spec fn role_is_due(self, state: ReleasedStateView, id: Seq<char>) -> bool {
        match self.joining() {
            Some(d) => self.attached is Ok && state.was_primary.contains(
                layout_for(state, d, id).0,
            ),
            None => false,
        }
    }
}

/// What is asked of the desktop in order to claim a display, in order: where it
/// is, attaching it, and giving it the primary role back.
pub open spec fn claim_calls(id: Seq<char>, state: ReleasedStateView, a: ClaimAnswers) -> Seq<
    DeskCall,
> {
    let attaching = match a.joining() {
        Some(d) => seq![DeskCall::Attached(d, layout_for(state, d, id).1, a.attached)],
        None => Seq::empty(),
    };
    let giving = if a.role_is_due(state, id) {
        role_calls(a.seen_again, a.again, a.given)
    } else {
        Seq::empty()
    };
    seq![DeskCall::Looked(a.seen)] + attaching + giving
}

/// A display was to be claimed like this, and nothing else was done.
pub open spec fn claim_asked(
    name: Seq<char>,
    before: Seq<DeskCall>,
    after: Seq<DeskCall>,
    id: Seq<char>,
    state: ReleasedStateView,
    a: ClaimAnswers,
) -> bool {
    &&& after == before + claim_calls(id, state, a)
    &&& a.found == chosen(name, a.seen, id)
    &&& a.role_is_due(state, id) ==> role_given(name, id, a.seen_again, a.again, a.given)
}

/// What is said before a display is attached.
pub open spec fn layout_lines(label: Seq<char>, known: bool) -> Seq<LineView> {
    if known {
        nothing()
    } else {
        said("No saved layout for `"@ + label + "`; Windows will choose its size and position."@)
    }
}

/// How a claim ends.
pub open spec fn claim_end(
    id: Seq<char>,
    label: Seq<char>,
    state: ReleasedStateView,
    a: ClaimAnswers,
) -> End {
    match a.found {
        Err(e) => given_up(nothing(), e),
        Ok(d) => if d.is_attached {
            idle("`"@ + label + "` is already attached to this desktop. Nothing to do."@)
        } else {
            let (key, saved, known) = layout_for(state, d, id);
            match a.attached {
                Err(e) => given_up(layout_lines(label, known), e),
                Ok(_) => done_to(
                    layout_lines(label, known) + primary_lines(
                        label,
                        if a.role_is_due(state, id) {
                            Some(a.given)
                        } else {
                            None
                        },
                    ),
                    true,
                    claimed_lines(label, saved),
                    "desktop.claim"@,
                    label,
                    d.gdi_name,
                ),
            }
        },
    }
}

/// What is remembered after a claim: no longer the display, where it was
/// attached.
pub open spec fn claim_kept(state: ReleasedStateView, id: Seq<char>, a: ClaimAnswers) ->
    ReleasedStateView {
    match (a.joining(), a.attached) {
        (Some(d), Ok(_)) => state.without(layout_for(state, d, id).0),
        _ => state,
    }
}

fn put_on<M: DesktopManager>(
    manager: &mut M,
    display: &DesktopDisplay,
    saved: SavedDisplayMode,
) -> (r: Result<(), String>)
    ensures
        final(manager).called() == old(manager).called(),
        final(manager).done() == old(manager).done().push(
            DeskCall::Attached(display.deep_view(), saved, tried_text(r)),
        ),
{
    match manager.attach(display, saved) {
        Ok(_) => Ok(()),
        Err(e) => Err(e.to_string()),
    }
}

/// Claims a display back into this desktop, where it was and as it was. The
/// primary role goes back to it where its release had taken it away.
pub fn claim<M: DesktopManager>(
    manager: &mut M,
    id: &str,
    label: &str,
    state: &mut ReleasedState,
    log: &mut EventLog,
) -> (r: Done)
    requires
        old(state).wf(),
    ensures
        final(state).wf(),
        exists|a: ClaimAnswers|
            #[trigger] claim_asked(
                old(manager).called(),
                old(manager).done(),
                final(manager).done(),
                id@,
                old(state).deep_view(),
                a,
            ) && ended(
                r,
                *old(log),
                *final(log),
                claim_end(id@, label@, old(state).deep_view(), a),
            ) && final(state).deep_view() == claim_kept(old(state).deep_view(), id@, a),
{
    let ghost before = state.deep_view();
    let ghost name = manager.called();
    let ghost start = manager.done();
    let (display, Ghost(seen)) = find(manager, id);
    let ghost mut a = ClaimAnswers {
        seen,
        found: display_result(display),
        attached: Ok(()),
        seen_again: Err(Seq::empty()),
        again: Err(Seq::empty()),
        given: Ok(()),
    };
    let d = match display {
        Ok(d) => d,
        Err(e) => {
            assert(manager.done() =~= start + claim_calls(id@, before, a));
            assert(claim_asked(name, start, manager.done(), id@, before, a));
            return stopped(Page::new(), e);
        },
    };
    if d.is_attached {
        assert(manager.done() =~= start + claim_calls(id@, before, a));
        assert(claim_asked(name, start, manager.done(), id@, before, a));
        return nothing_to_do(already_attached(label));
    }
    let (key, saved, known) = saved_layout(state, &d, id);
    let mut page = Page::new();
    if !known {
        page.say(no_layout(label));
    }
    assert(page@ =~= layout_lines(label@, known));
    let on = put_on(manager, &d, saved);
    proof {
        a = ClaimAnswers { attached: tried_text(on), ..a };
    }
    match on {
        Err(e) => {
            assert(manager.done() =~= start + claim_calls(id@, before, a));
            assert(claim_asked(name, start, manager.done(), id@, before, a));
            return stopped(page, e);
        },
        Ok(_) => {},
    }
    let due = state.forget(key.as_str());
    let primary: Option<Result<(), String>> = if due {
        let (given, Ghost(seen_again), Ghost(again)) = give_role(manager, id);
        proof {
            a = ClaimAnswers { seen_again, again, given: tried_text(given), ..a };
        }
        Some(given)
    } else {
        None
    };
    page.add(role_returned(label, &primary));
    log_display(log, "desktop.claim", label, d.gdi_name.as_str());
    assert(manager.done() =~= start + claim_calls(id@, before, a));
    assert(claim_asked(name, start, manager.done(), id@, before, a));
    Done { page, keep: true, after: claimed(label, saved), result: Ok(0) }
}

// ---------------------------------------------------------------------------
// sweep
// ---------------------------------------------------------------------------

/// What is asked of the desktop in order to move windows off a display.
pub open spec fn sweep_calls(
    look: Shown,
    found: Result<DesktopDisplayView, Seq<char>>,
    out: Result<SweepReport, Seq<char>>,
) -> Seq<DeskCall> {
    match found {
        Ok(d) => if d.is_attached {
            seq![DeskCall::Looked(look), DeskCall::Swept(d, out)]
        } else {
            seq![DeskCall::Looked(look)]
        },
        Err(_) => seq![DeskCall::Looked(look)],
    }
}

/// Windows were to be moved off a display like this, and nothing else was done.
pub open spec fn sweep_asked(
    name: Seq<char>,
    before: Seq<DeskCall>,
    after: Seq<DeskCall>,
    id: Seq<char>,
    look: Shown,
    out: Result<SweepReport, Seq<char>>,
) -> bool {
    after == before + sweep_calls(look, chosen(name, look, id), out)
}

/// How a sweep ends.
pub open spec fn sweep_end(
    label: Seq<char>,
    found: Result<DesktopDisplayView, Seq<char>>,
    out: Result<SweepReport, Seq<char>>,
) -> End {
    match found {
        Err(e) => given_up(nothing(), e),
        Ok(d) => if !d.is_attached {
            idle("`"@ + label + "` is not attached to this desktop, so nothing can be on it."@)
        } else {
            match out {
                Err(e) => given_up(nothing(), e),
                Ok(report) => End {
                    lines: nothing(),
                    keep: report.moved@.len() > 0,
                    after: swept_lines(label, report.deep_view()),
                    result: Ok(0),
                    event: Some(
                        (
                            "desktop.sweep"@,
                            seq![
                                ("monitor"@, label),
                                ("moved"@, decimal(report.moved@.len())),
                            ],
                        ),
                    ),
                },
            }
        },
    }
}

/// What is remembered after a sweep.
pub open spec fn sweep_kept(
    before: Seq<(Seq<char>, Vec<MovedWindow>)>,
    id: Seq<char>,
    found: Result<DesktopDisplayView, Seq<char>>,
    out: Result<SweepReport, Seq<char>>,
) -> Seq<(Seq<char>, Vec<MovedWindow>)> {
    match (found, out) {
        (Ok(d), Ok(report)) => if d.is_attached {
            swept_after(before, id, report.moved)
        } else {
            before
        },
        _ => before,
    }
}

/// Moves windows off a display, and remembers where each of them was.
pub fn sweep<M: DesktopManager>(
    manager: &mut M,
    id: &str,
    label: &str,
    state: &mut SweptState,
    log: &mut EventLog,
) -> (r: Done)
    requires
        old(state).wf(),
    ensures
        final(state).wf(),
        exists|look: Shown, out: Result<SweepReport, Seq<char>>|
            #[trigger] sweep_asked(
                old(manager).called(),
                old(manager).done(),
                final(manager).done(),
                id@,
                look,
                out,
            ) && ended(
                r,
                *old(log),
                *final(log),
                sweep_end(label@, chosen(old(manager).called(), look, id@), out),
            ) && final(state).swept.seq() == sweep_kept(
                old(state).swept.seq(),
                id@,
                chosen(old(manager).called(), look, id@),
                out,
            ),
{
    let ghost none: Result<SweepReport, Seq<char>> = Err(Seq::empty());
    let ghost name = manager.called();
    let ghost start = manager.done();
    let (display, Ghost(look)) = find(manager, id);
    let ghost found = display_result(display);
    let d = match display {
        Ok(d) => d,
        Err(e) => {
            assert(manager.done() =~= start + sweep_calls(look, found, none));
            assert(sweep_asked(name, start, manager.done(), id@, look, none));
            return stopped(Page::new(), e);
        },
    };
    if !d.is_attached {
        assert(manager.done() =~= start + sweep_calls(look, found, none));
        assert(sweep_asked(name, start, manager.done(), id@, look, none));
        return nothing_to_do(nothing_on(label));
    }
    let raw = manager.sweep_windows_off(&d);
    let ghost out = with_message(raw);
    assert(manager.done() =~= start + sweep_calls(look, found, out));
    assert(sweep_asked(name, start, manager.done(), id@, look, out));
    let report = match raw {
        Ok(report) => report,
        Err(e) => return stopped(Page::new(), e.to_string()),
    };
    let fields: [(&str, String); 2] = [
        ("monitor", label.to_owned()),
        ("moved", dec(report.moved.len() as u64)),
    ];
    assert(fields_view(fields@) =~= seq![
        ("monitor"@, label@),
        ("moved"@, decimal(report.moved@.len())),
    ]);
    log.append("desktop.sweep", fields.as_slice());
    let after = swept(label, &report);
    let keep = state.remember(id, report.moved);
    Done { page: Page::new(), keep, after, result: Ok(0) }
}

// ---------------------------------------------------------------------------
// restore-windows
// ---------------------------------------------------------------------------

/// The windows that were swept off a monitor.
pub open spec fn swept_from(state: Seq<(Seq<char>, Vec<MovedWindow>)>, key: Seq<char>) -> Seq<
    MovedWindow,
> {
    match got(state, key) {
        Some(windows) => windows@,
        None => Seq::empty(),
    }
}

/// What is asked of the desktop in order to put windows back, monitor by
/// monitor, up to the first that failed.
pub open spec fn restore_calls(
    state: Seq<(Seq<char>, Vec<MovedWindow>)>,
    keys: Seq<Seq<char>>,
    reports: Seq<RestoreReportView>,
    failed: Option<Seq<char>>,
) -> Seq<DeskCall> {
    Seq::new(
        reports.len(),
        |i: int| DeskCall::PutBack(swept_from(state, keys[i]), Ok(reports[i])),
    ) + match failed {
        None => Seq::empty(),
        Some(e) => seq![
            DeskCall::PutBack(swept_from(state, keys[reports.len() as int]), Err(e)),
        ],
    }
}

/// Windows were to be put back like this, and nothing else was done.
pub open spec fn restore_asked(
    before: Seq<DeskCall>,
    after: Seq<DeskCall>,
    state: Seq<(Seq<char>, Vec<MovedWindow>)>,
    keys: Seq<Seq<char>>,
    reports: Seq<RestoreReportView>,
    failed: Option<Seq<char>>,
) -> bool {
    &&& after == before + restore_calls(state, keys, reports, failed)
    &&& match failed {
        None => reports.len() == keys.len(),
        Some(_) => reports.len() < keys.len(),
    }
}

pub open spec fn restore_fields(key: Seq<char>, report: RestoreReportView) -> Seq<
    (Seq<char>, Seq<char>),
> {
    seq![
        ("monitor"@, key),
        ("restored"@, decimal(report.restored.len())),
        ("missing"@, decimal(report.missing.len())),
    ]
}

/// One log became another, report by report: `logs` holds it before the first
/// and after each.
pub open spec fn restores_logged(
    keys: Seq<Seq<char>>,
    reports: Seq<RestoreReportView>,
    logs: Seq<EventLog>,
) -> bool {
    &&& logs.len() == reports.len() + 1
    &&& forall|i: int|
        0 <= i < reports.len() ==> took(
            logs[i],
            logs[i + 1],
            "desktop.restore"@,
            restore_fields(keys[i], #[trigger] reports[i]),
        )
}

pub open spec fn all_restored_lines(reports: Seq<RestoreReportView>) -> Seq<LineView>
    decreases reports.len(),
{
    if reports.len() == 0 {
        nothing()
    } else {
        all_restored_lines(reports.drop_last()) + restored_lines(reports.last())
    }
}

/// Some window was put back.
pub open spec fn any_restored(reports: Seq<RestoreReportView>) -> bool {
    exists|i: int| 0 <= i < reports.len() && (#[trigger] reports[i]).restored.len() > 0
}

/// What is remembered once the windows of some monitors are back.
pub open spec fn restore_kept(
    state: Seq<(Seq<char>, Vec<MovedWindow>)>,
    keys: Seq<Seq<char>>,
) -> Seq<(Seq<char>, Vec<MovedWindow>)>
    decreases keys.len(),
{
    if keys.len() == 0 {
        state
    } else {
        removed(restore_kept(state, keys.drop_last()), keys.last())
    }
}

/// How putting windows back ends, where there was something to put back.
pub open spec fn restore_ended(
    done: Done,
    before: Seq<(Seq<char>, Vec<MovedWindow>)>,
    after: Seq<(Seq<char>, Vec<MovedWindow>)>,
    keys: Seq<Seq<char>>,
    reports: Seq<RestoreReportView>,
    failed: Option<Seq<char>>,
) -> bool {
    &&& done.page@ == all_restored_lines(reports)
    &&& match failed {
        Some(e) => {
            &&& !done.keep
            &&& done.after@ == nothing()
            &&& end_of(done.result) == Err::<i32, Seq<char>>(e)
            &&& after == before
        },
        None => {
            &&& done.keep
            &&& done.after@ == if any_restored(reports) {
                nothing()
            } else {
                said("None of the swept windows could be found."@)
            }
            &&& end_of(done.result) == Ok::<i32, Seq<char>>(
                if any_restored(reports) {
                    0
                } else {
                    1
                },
            )
            &&& after == restore_kept(before, keys)
        },
    }
}

/// Windows of these monitors were to be put back, and this is what came of it.
pub open spec fn restore_came_to(
    asked: Seq<DeskCall>,
    asked_after: Seq<DeskCall>,
    keys: Seq<Seq<char>>,
    done: Done,
    before: Seq<(Seq<char>, Vec<MovedWindow>)>,
    after: Seq<(Seq<char>, Vec<MovedWindow>)>,
    log: EventLog,
    log_after: EventLog,
) -> bool {
    exists|reports: Seq<RestoreReportView>, failed: Option<Seq<char>>, logs: Seq<EventLog>|
        {
            &&& #[trigger] restore_asked(asked, asked_after, before, keys, reports, failed)
            &&& #[trigger] restores_logged(keys, reports, logs)
            &&& logs[0] == log
            &&& logs.last() == log_after
            &&& restore_ended(done, before, after, keys, reports, failed)
        }
}

/// Windows were kept under every monitor that a restore goes through.
proof fn lemma_restores_something(
    state: Seq<(Seq<char>, Vec<MovedWindow>)>,
    wanted: Option<Seq<char>>,
    i: int,
)
    ensures
        restore_start(state, wanted) matches RestoreStartView::From(keys) ==> (0 <= i < keys.len()
            ==> got(state, keys[i]) is Some),
{
    match restore_start(state, wanted) {
        RestoreStartView::From(keys) => {
            if wanted is None && 0 <= i < keys.len() {
                let p = under::<Vec<MovedWindow>>(keys[i]);
                assert(p(state[i]));
                lemma_first_index(state, p);
            }
        },
        _ => {},
    }
}

fn log_restore(log: &mut EventLog, key: &str, report: &RestoreReport)
    ensures
        took(
            *old(log),
            *final(log),
            "desktop.restore"@,
            restore_fields(key@, report.deep_view()),
        ),
{
    assert(report.deep_view().restored.len() == report.restored@.len());
    assert(report.deep_view().missing.len() == report.missing@.len());
    let fields: [(&str, String); 3] = [
        ("monitor", key.to_owned()),
        ("restored", dec(report.restored.len() as u64)),
        ("missing", dec(report.missing.len() as u64)),
    ];
    assert(fields_view(fields@) =~= restore_fields(key@, report.deep_view()));
    log.append("desktop.restore", fields.as_slice());
}

fn forget_all(state: &mut SweptState, keys: &Vec<String>)
    requires
        old(state).wf(),
    ensures
        final(state).wf(),
        final(state).swept.seq() == restore_kept(old(state).swept.seq(), texts(keys@)),
{
    let ghost before = state.swept.seq();
    let ghost ks = texts(keys@);
    let mut i: usize = 0;
    assert(ks.take(0) =~= Seq::<Seq<char>>::empty());
    while i < keys.len()
        invariant
            i <= keys@.len(),
            ks == texts(keys@),
            state.wf(),
            state.swept.seq() == restore_kept(before, ks.take(i as int)),
        decreases keys@.len() - i,
    {
        let ghost next = ks.take(i as int + 1);
        assert(next.drop_last() =~= ks.take(i as int));
        assert(next.last() == keys@[i as int]@);
        state.forget(keys[i].as_str());
        i += 1;
    }
    assert(ks.take(ks.len() as int) =~= ks);
}

/// Puts windows back where a sweep found them: those of the named monitor, or
/// all of them. Where one monitor fails, everything stays remembered.
pub fn restore_windows<M: DesktopManager>(
    manager: &mut M,
    wanted: Option<&str>,
    state: &mut SweptState,
    log: &mut EventLog,
) -> (r: Done)
    requires
        old(state).wf(),
    ensures
        final(state).wf(),
        match restore_start(old(state).swept.seq(), opt_str(wanted)) {
            RestoreStartView::Nothing(line) => {
                &&& ended(r, *old(log), *final(log), idle(line))
                &&& final(state).swept.seq() == old(state).swept.seq()
                &&& final(manager).done() == old(manager).done()
            },
            RestoreStartView::From(keys) => restore_came_to(
                old(manager).done(),
                final(manager).done(),
                keys,
                r,
                old(state).swept.seq(),
                final(state).swept.seq(),
                *old(log),
                *final(log),
            ),
        },
{
    let ghost start = manager.done();
    let ghost before = state.swept.seq();
    let ghost none: Option<Seq<char>> = None;
    let keys = match begin_restore(state, wanted) {
        RestoreStart::Nothing(line) => {
            return nothing_to_do(line);
        },
        RestoreStart::From(keys) => keys,
    };
    let ghost ks = texts(keys@);
    let ghost mut reports: Seq<RestoreReportView> = Seq::empty();
    let ghost mut logs: Seq<EventLog> = seq![*log];
    let mut page = Page::new();
    let mut any = false;
    let mut i: usize = 0;
    assert(manager.done() =~= start + restore_calls(before, ks, reports, none));
    while i < keys.len()
        invariant
            i <= keys@.len(),
            ks == texts(keys@),
            before == state.swept.seq(),
            before == old(state).swept.seq(),
            state.wf(),
            restore_start(before, opt_str(wanted)) == RestoreStartView::From(ks),
            reports.len() == i,
            start == old(manager).done(),
            none is None,
            manager.done() == start + restore_calls(before, ks, reports, none),
            restores_logged(ks, reports, logs),
            logs[0] == *old(log),
            logs.last() == *log,
            page@ == all_restored_lines(reports),
            any == any_restored(reports),
        decreases keys@.len() - i,
    {
        proof {
            lemma_restores_something(before, opt_str(wanted), i as int);
            assert(ks[i as int] == keys@[i as int]@);
        }
        if let Some(windows) = state.windows(keys[i].as_str()) {
            assert(swept_from(before, ks[i as int]) == windows@);
            let raw = manager.restore_windows(windows.as_slice());
            match raw {
                Err(e) => {
                    let ghost why = Some(e.deep_view().message());
                    assert(manager.done() =~= start + restore_calls(before, ks, reports, why));
                    assert(restore_asked(start, manager.done(), before, ks, reports, why));
                    return stopped(page, e.to_string());
                },
                Ok(report) => {
                    log_restore(log, keys[i].as_str(), &report);
                    let (more, some) = restored(&report);
                    page.add(more);
                    any = any || some;
                    proof {
                        let had = reports;
                        let old_logs = logs;
                        reports = reports.push(report.deep_view());
                        logs = logs.push(*log);
                        assert(reports.drop_last() =~= had);
                        assert(manager.done() =~= start + restore_calls(
                            before,
                            ks,
                            reports,
                            none,
                        ));
                        assert forall|j: int| 0 <= j < reports.len() implies took(
                            logs[j],
                            logs[j + 1],
                            "desktop.restore"@,
                            restore_fields(ks[j], #[trigger] reports[j]),
                        ) by {
                            if j < had.len() {
                                assert(reports[j] == had[j]);
                                assert(logs[j] == old_logs[j] && logs[j + 1] == old_logs[j + 1]);
                            }
                        }
                        if any_restored(had) {
                            let k = choose|k: int|
                                0 <= k < had.len() && (#[trigger] had[k]).restored.len() > 0;
                            assert(reports[k].restored.len() > 0);
                        }
                        if some {
                            assert(reports[had.len() as int].restored.len() > 0);
                        }
                        if any_restored(reports) {
                            let k = choose|k: int|
                                0 <= k < reports.len() && (#[trigger] reports[k]).restored.len()
                                    > 0;
                            if k < had.len() {
                                assert(had[k].restored.len() > 0);
                            }
                        }
                    }
                },
            }
        }
        i += 1;
    }
    forget_all(state, &keys);
    let end = end_restore(any);
    let done = Done { page, keep: true, after: end.page, result: Ok(end.code) };
    assert(restore_asked(start, manager.done(), before, ks, reports, none));
    assert(restore_ended(done, before, state.swept.seq(), ks, reports, none));
    assert(restores_logged(ks, reports, logs));
    assert(restore_came_to(
        start,
        manager.done(),
        ks,
        done,
        before,
        state.swept.seq(),
        *old(log),
        *log,
    ));
    done
}

/// Once everything is back, nothing is remembered any more. Putting one
/// monitor's windows back leaves what came off the others as it was.
pub proof fn law_a_restore_forgets_what_it_put_back(
    state: Seq<(Seq<char>, Vec<MovedWindow>)>,
    key: Seq<char>,
    other: Seq<char>,
)
    requires
        in_order(state),
        other != key,
    ensures
        restore_kept(state, keys_in(state)).len() == 0,
        got(restore_kept(state, seq![key]), key) is None,
        got(restore_kept(state, seq![key]), other) == got(state, other),
{
    let keys = keys_in(state);
    let left = restore_kept(state, keys);
    lemma_what_is_left(state, keys);
    if left.len() > 0 {
        let e = left[0];
        assert(left.contains(e));
        let i = choose|i: int| 0 <= i < state.len() && state[i] == e;
        assert(keys[i] == e.0);
        assert(keys.contains(e.0));
    }
    assert(seq![key].drop_last() =~= Seq::<Seq<char>>::empty());
    assert(restore_kept(state, seq![key].drop_last()) == state);
    assert(restore_kept(state, seq![key]) == removed(state, key));
    let any: Vec<MovedWindow> = arbitrary();
    law_a_sweep_can_be_undone(state, key, any, other);
}

/// What is left is what was there, under other keys.
proof fn lemma_what_is_left(state: Seq<(Seq<char>, Vec<MovedWindow>)>, keys: Seq<Seq<char>>)
    ensures
        forall|e: (Seq<char>, Vec<MovedWindow>)| #[trigger]
            restore_kept(state, keys).contains(e) ==> state.contains(e) && !keys.contains(e.0),
    decreases keys.len(),
{
    if keys.len() > 0 {
        let rest = keys.drop_last();
        let last = keys.last();
        lemma_what_is_left(state, rest);
        let had = restore_kept(state, rest);
        reveal(removed);
        lemma_filter_members(had, elsewhere::<Vec<MovedWindow>>(last));
        assert forall|e: (Seq<char>, Vec<MovedWindow>)| #[trigger]
            restore_kept(state, keys).contains(e) implies state.contains(e) && !keys.contains(
            e.0,
        ) by {
            let now = restore_kept(state, keys);
            let i = choose|i: int| 0 <= i < now.len() && now[i] == e;
            assert(had.contains(e) && e.0 != last);
            if keys.contains(e.0) {
                let k = choose|k: int| 0 <= k < keys.len() && keys[k] == e.0;
                assert(k < rest.len());
                assert(rest[k] == e.0);
                assert(rest.contains(e.0));
            }
        }
    }
}

// ---------------------------------------------------------------------------
// What becomes of a display
// ---------------------------------------------------------------------------

/// A display that is not primary is released by detaching it, and nothing else
/// is asked for; what it was detached with is kept under its id, so that it can
/// come back. One that is not attached is left alone.
pub proof fn law_a_release_detaches_the_display_that_was_found(
    before: ReleasedStateView,
    id: Seq<char>,
    label: Seq<char>,
    d: DesktopDisplayView,
    a: ReleaseAnswers,
)
    requires
        a.found == Ok::<DesktopDisplayView, Seq<char>>(d),
        !(d.is_attached && d.is_primary),
        in_order(before.released),
    ensures
        d.is_attached ==> release_calls(a) == seq![
            DeskCall::Looked(a.seen),
            DeskCall::Detached(d, a.detached),
        ],
        !d.is_attached ==> release_calls(a) == seq![DeskCall::Looked(a.seen)],
        d.is_attached ==> match a.detached {
            Ok(saved) => {
                let kept = release_kept(before, id, a);
                &&& release_end(label, a).result == Ok::<i32, Seq<char>>(0)
                &&& release_end(label, a).keep
                &&& got(kept.released, id) == Some(saved)
                &&& kept.was_primary == before.was_primary
            },
            Err(e) => release_end(label, a).result == Err::<i32, Seq<char>>(e) && release_kept(
                before,
                id,
                a,
            ) == before,
        },
        !d.is_attached ==> release_end(label, a).result == Ok::<i32, Seq<char>>(0) && release_kept(
            before,
            id,
            a,
        ) == before,
{
    if d.is_attached {
        assert(release_calls(a) =~= seq![
            DeskCall::Looked(a.seen),
            DeskCall::Detached(d, a.detached),
        ]);
        if let Ok(saved) = a.detached {
            law_what_is_kept_is_found(before.released, id, saved, id);
        }
    } else {
        assert(release_calls(a) =~= seq![DeskCall::Looked(a.seen)]);
    }
}

/// A primary display is released only once another that can take over was made
/// primary and the display was found again; that it had the role is kept with
/// its layout.
pub proof fn law_a_primary_display_is_released_after_its_role(
    before: ReleasedStateView,
    id: Seq<char>,
    label: Seq<char>,
    d: DesktopDisplayView,
    all: Seq<DesktopDisplayView>,
    a: ReleaseAnswers,
)
    requires
        a.found == Ok::<DesktopDisplayView, Seq<char>>(d),
        d.is_attached && d.is_primary,
        a.all == Ok::<Seq<DesktopDisplayView>, Seq<char>>(all),
        in_order(before.released),
    ensures
        forall|i: int|
            0 <= i < release_calls(a).len() ==> (#[trigger] release_calls(a)[i] matches
                DeskCall::Detached(x, _) ==> {
                &&& i == 4
                &&& a.again == Ok::<DesktopDisplayView, Seq<char>>(x)
                &&& a.handed is Ok
                &&& release_calls(a)[2] matches DeskCall::Promoted(to, _) && all.contains(to)
                    && can_take_over(to, d)
            }),
        release_end(label, a).result matches Ok(code) ==> {
            &&& code == 0
            &&& a.detached is Ok && a.handed is Ok && a.again is Ok
            &&& got(release_kept(before, id, a).released, id) == Some(a.detached->Ok_0)
            &&& release_kept(before, id, a).was_primary.contains(id)
        },
{
    law_the_primary_role_goes_to_the_largest(all, d);
    let calls = release_calls(a);
    if release_end(label, a).result is Ok {
        let saved = a.detached->Ok_0;
        law_what_is_kept_is_found(before.released, id, saved, id);
        let kept = before.with(id, saved, true).was_primary;
        if !before.was_primary.contains(id) {
            assert(kept.last() == id);
        }
    }
}

/// A display that is not attached is claimed by attaching it in the layout that
/// was kept for it; where it had the primary role that is given back. What was
/// kept is then forgotten. One that is attached is left alone.
pub proof fn law_a_claim_attaches_the_display_in_its_layout(
    id: Seq<char>,
    label: Seq<char>,
    state: ReleasedStateView,
    d: DesktopDisplayView,
    a: ClaimAnswers,
)
    requires
        a.found == Ok::<DesktopDisplayView, Seq<char>>(d),
        in_order(state.released),
    ensures
        ({
            let calls = claim_calls(id, state, a);
            let (key, saved, known) = layout_for(state, d, id);
            let after = claim_kept(state, id, a);
            &&& calls[0] == DeskCall::Looked(a.seen)
            &&& d.is_attached ==> calls.len() == 1 && after == state
            &&& !d.is_attached ==> calls[1] == DeskCall::Attached(d, saved, a.attached)
            &&& !d.is_attached ==> (claim_end(id, label, state, a).result is Ok <==> a.attached
                is Ok)
            &&& !d.is_attached && a.attached is Err ==> calls.len() == 2 && after == state
            &&& !d.is_attached && a.attached is Ok ==> got(after.released, key) is None
                && !after.was_primary.contains(key)
            &&& !d.is_attached && a.attached is Ok && state.was_primary.contains(key) ==> calls[2]
                == DeskCall::Looked(a.seen_again) && (a.again matches Ok(now) ==> calls[3]
                == DeskCall::Promoted(now, a.given))
            &&& !state.was_primary.contains(key) ==> calls.len() <= 2
        }),
{
    let (key, saved, known) = layout_for(state, d, id);
    if !d.is_attached && a.attached is Ok {
        law_what_is_kept_is_found(state.released, key, saved, key);
        let q = other_than(key);
        lemma_filter_members(state.was_primary, q);
        let roles = state.was_primary.filter(q);
        if roles.contains(key) {
            let i = choose|i: int| 0 <= i < roles.len() && roles[i] == key;
            assert(q(roles[i]));
        }
    }
}

/// A sweep is of the display that was found, where it is attached, and what it
/// moved is remembered under that monitor's id, in place of what was there.
pub proof fn law_a_sweep_is_of_the_display_that_was_found(
    look: Shown,
    before: Seq<(Seq<char>, Vec<MovedWindow>)>,
    id: Seq<char>,
    label: Seq<char>,
    d: DesktopDisplayView,
    out: Result<SweepReport, Seq<char>>,
)
    requires
        in_order(before),
    ensures
        ({
            let found = Ok::<DesktopDisplayView, Seq<char>>(d);
            let calls = sweep_calls(look, found, out);
            let after = sweep_kept(before, id, found, out);
            &&& d.is_attached ==> calls == seq![DeskCall::Looked(look), DeskCall::Swept(d, out)]
            &&& !d.is_attached ==> calls == seq![DeskCall::Looked(look)] && after == before
            &&& d.is_attached ==> match out {
                Ok(report) => if report.moved@.len() > 0 {
                    got(after, id) == Some(report.moved)
                } else {
                    after == before
                },
                Err(_) => after == before,
            }
            &&& d.is_attached ==> (sweep_end(label, found, out).result is Ok <==> out is Ok)
        }),
{
    if let Ok(report) = out {
        law_a_sweep_can_be_undone(before, id, report.moved, id);
    }
}

/// Putting windows back is asked for once for each monitor, with the windows
/// that were swept off it.
pub proof fn law_a_restore_is_asked_for_each_monitor(
    state: Seq<(Seq<char>, Vec<MovedWindow>)>,
    keys: Seq<Seq<char>>,
    reports: Seq<RestoreReportView>,
    failed: Option<Seq<char>>,
    i: int,
)
    requires
        0 <= i < reports.len(),
        reports.len() <= keys.len(),
        got(state, keys[i]) is Some,
    ensures
        restore_calls(state, keys, reports, failed)[i] == DeskCall::PutBack(
            got(state, keys[i])->0@,
            Ok(reports[i]),
        ),
        restore_calls(state, keys, reports, failed).len() == reports.len() + (if failed is Some {
            1nat
        } else {
            0nat
        }),
{
}

/// The primary role is asked for exactly where the display that was found does
/// not have it.
pub proof fn law_the_role_is_asked_for_where_it_is_missing(
    look: Shown,
    d: DesktopDisplayView,
    label: Seq<char>,
    out: Tried,
)
    ensures
        ({
            let found = Ok::<DesktopDisplayView, Seq<char>>(d);
            let calls = primary_calls(look, found, out);
            &&& d.is_primary ==> calls == seq![DeskCall::Looked(look)]
            &&& !d.is_primary ==> calls == seq![DeskCall::Looked(look), DeskCall::Promoted(d, out)]
            &&& primary_end(label, found, out).result is Ok <==> d.is_primary || out is Ok
            &&& primary_end(label, found, out).event is Some <==> !d.is_primary && out is Ok
        }),
{
}

/// Putting windows back succeeds where any of them came back, and nothing that
/// was swept is forgotten where asking failed.
pub proof fn law_a_restore_succeeds_when_a_window_is_back(
    done: Done,
    before: Seq<(Seq<char>, Vec<MovedWindow>)>,
    after: Seq<(Seq<char>, Vec<MovedWindow>)>,
    keys: Seq<Seq<char>>,
    reports: Seq<RestoreReportView>,
    failed: Option<Seq<char>>,
)
    requires
        restore_ended(done, before, after, keys, reports, failed),
    ensures
        failed is None ==> (end_of(done.result) == Ok::<i32, Seq<char>>(0i32) <==> exists|
            i: int,
            title: Seq<char>,
        |
            0 <= i < reports.len() && #[trigger] reports[i].restored.contains(title)),
        failed is Some ==> end_of(done.result) is Err && after == before && !done.keep,
{
    if failed is None {
        if any_restored(reports) {
            let i = choose|i: int|
                0 <= i < reports.len() && (#[trigger] reports[i]).restored.len() > 0;
            let title = reports[i].restored[0];
            assert(reports[i].restored.contains(title));
        }
        if exists|i: int, title: Seq<char>|
            0 <= i < reports.len() && #[trigger] reports[i].restored.contains(title) {
            let (i, title) = choose|i: int, title: Seq<char>|
                0 <= i < reports.len() && #[trigger] reports[i].restored.contains(title);
            assert(reports[i].restored.len() > 0);
        }
    }
}

} // verus!

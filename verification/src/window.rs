//! Moving one window: off a display, and back to where a sweep found it.
//!
//! What is done to a window goes through the hands on it.

use vstd::prelude::*;

use crate::arrange::{
    has_landed, is_swept, placed, report_swept, still_wanted, swept_position, to_be_swept,
    wanted_window, WindowFacts,
};
use crate::desktop::{MovedWindow, MovedWindowView, Rect, SweepReport, SweepReportView};
use crate::hands::{Deed, Hands};
use crate::seqs::first_index;
use crate::text::texts;

verus! {

/// What is done to a window that is swept: it is taken out of filling its
/// display where it did, moved, looked for again where the move was accepted,
/// and made to fill its new display. A maximized window cannot be moved as it
/// is.
pub open spec fn sweep_deeds(original: Rect, source: Rect, target: Rect, a: SweepAnswers) -> Seq<
    Deed,
> {
    let from = a.from(original);
    let x = placed(
        from.left as int,
        from.right as int,
        source.left as int,
        target.left as int,
        target.right as int,
    );
    let y = placed(
        from.top as int,
        from.bottom as int,
        source.top as int,
        target.top as int,
        target.bottom as int,
    );
    let freed = if a.maximized {
        seq![Deed::Restored, Deed::Looked(a.again)]
    } else {
        Seq::empty()
    };
    let found = if a.accepted {
        seq![Deed::Looked(a.after)]
    } else {
        Seq::empty()
    };
    seq![Deed::Asked(a.maximized)] + freed + seq![Deed::Moved(x as i32, y as i32, a.accepted)]
        + found + filled(a.maximized)
}

/// What is done to a window that is put back where it had been.
pub open spec fn restore_deeds(wanted: MovedWindowView, a: RestoreAnswers) -> Seq<Deed> {
    let freed = if a.maximized {
        seq![Deed::Restored]
    } else {
        Seq::empty()
    };
    seq![Deed::Asked(a.maximized)] + freed + seq![
        Deed::Moved(wanted.from.left, wanted.from.top, a.accepted),
    ] + filled(wanted.was_maximized)
}

/// The window is made to fill its display, or that is left out.
pub open spec fn filled(fills: bool) -> Seq<Deed> {
    if fills {
        seq![Deed::Enlarged]
    } else {
        Seq::empty()
    }
}

/// A window was to be put back. It counts among those that are back where
/// the move was accepted.
pub open spec fn tried_to_return(
    deeds: Seq<Deed>,
    wanted: MovedWindowView,
    before: Seq<Seq<char>>,
    after: Seq<Seq<char>>,
) -> bool {
    exists|a: RestoreAnswers|
        deeds == #[trigger] restore_deeds(wanted, a) && after == (if a.accepted {
            before.push(wanted.title)
        } else {
            before
        })
}

/// What the system answers while a window is swept.
pub struct SweepAnswers {
    pub maximized: bool,
    /// Where it is once it no longer fills its display.
    pub again: Option<Rect>,
    /// Whether the move was accepted.
    pub accepted: bool,
    /// Where it is after the move.
    pub after: Option<Rect>,
}

impl SweepAnswers {
    /// Where the window is moved from.
    pub open spec fn from(self, original: Rect) -> Rect {
        if self.maximized {
            match self.again {
                Some(r) => r,
                None => original,
            }
        } else {
            original
        }
    }

    /// The window left the display. Only its position afterwards says so.
    pub open spec fn landed(self, source: Rect) -> bool {
        self.accepted && (self.after matches Some(b) && !source.holds(b.middle().0, b.middle().1))
    }
}

/// What the system answers while a window is put back.
pub struct RestoreAnswers {
    pub maximized: bool,
    pub accepted: bool,
}

/// A report with one more window that was to be swept.
pub open spec fn with_swept(
    report: SweepReportView,
    title: Seq<char>,
    original: Rect,
    source: Rect,
    a: SweepAnswers,
) -> SweepReportView {
    if a.landed(source) {
        SweepReportView {
            moved: report.moved.push(
                MovedWindowView { title, from: original, was_maximized: a.maximized },
            ),
            ..report
        }
    } else {
        SweepReportView { skipped: report.skipped.push(title), ..report }
    }
}

/// Sweeps one window off a display, if it is to be swept. What is remembered
/// of it is where it was before anything was changed.
pub fn sweep_window<
    M: Fn() -> bool,
    R: Fn(),
    G: Fn() -> Option<Rect>,
    P: Fn(i32, i32) -> bool,
    X: Fn(),
>(
    facts: WindowFacts,
    source: &Rect,
    target: &Rect,
    hands: &mut Hands<M, R, G, P, X>,
    report: &mut SweepReport,
)
    requires
        facts.bounds matches Some(b) ==> b.fits(),
    ensures
        final(hands).grip() == old(hands).grip(),
        if to_be_swept(facts.visible, facts.tool, facts.title@, facts.bounds, *source) {
            exists|a: SweepAnswers|
                final(hands).did() == old(hands).did() + #[trigger] sweep_deeds(
                    facts.bounds->0,
                    *source,
                    *target,
                    a,
                ) && final(report).deep_view() == with_swept(
                    old(report).deep_view(),
                    facts.title@,
                    facts.bounds->0,
                    *source,
                    a,
                )
        } else {
            *final(report) == *old(report) && final(hands).did() == old(hands).did()
        },
{
    if !is_swept(&facts, source) {
        return ;
    }
    let original = match facts.bounds {
        Some(b) => b,
        None => {
            return ;
        },
    };
    let maximized = hands.is_maximized();
    let mut again: Option<Rect> = None;
    let mut rect = original;
    if maximized {
        hands.restore();
        again = hands.bounds();
        if let Some(r) = again {
            rect = r;
        }
    }
    let (x, y) = swept_position(&rect, source, target);
    let accepted = hands.move_to(x, y);
    let after = if accepted {
        hands.bounds()
    } else {
        None
    };
    let landed = has_landed(accepted, &after, source);
    if maximized {
        hands.maximize();
    }
    let ghost a = SweepAnswers { maximized, again, accepted, after };
    assert(hands.did() =~= old(hands).did() + sweep_deeds(original, *source, *target, a));
    report_swept(report, facts.title, original, maximized, landed);
}

/// Puts one visible window back, if it is one that was swept and is not back
/// yet. It counts as back where the move was accepted.
pub fn restore_window<
    M: Fn() -> bool,
    R: Fn(),
    G: Fn() -> Option<Rect>,
    P: Fn(i32, i32) -> bool,
    X: Fn(),
>(
    visible: bool,
    title: &str,
    wanted: &Vec<MovedWindow>,
    hands: &mut Hands<M, R, G, P, X>,
    done: &mut Vec<String>,
)
    ensures
        final(hands).grip() == old(hands).grip(),
        final(hands).did().len() >= old(hands).did().len(),
        final(hands).did().take(old(hands).did().len() as int) == old(hands).did(),
        match first_index(wanted.deep_view(), still_wanted(title@, texts(old(done)@))) {
            Some(i) => if visible && title@.len() > 0 {
                tried_to_return(
                    final(hands).did().skip(old(hands).did().len() as int),
                    wanted.deep_view()[i],
                    texts(old(done)@),
                    texts(final(done)@),
                )
            } else {
                *final(done) == *old(done) && final(hands).did() == old(hands).did()
            },
            None => *final(done) == *old(done) && final(hands).did() == old(hands).did(),
        },
{
    if !visible || title.unicode_len() == 0 {
        return ;
    }
    let all = wanted.as_slice();
    assert(all.deep_view() =~= wanted.deep_view());
    let at: usize = match wanted_window(all, done, title) {
        Some(i) => i,
        None => {
            return ;
        },
    };
    let window = &wanted[at];
    let maximized = hands.is_maximized();
    if maximized {
        hands.restore();
    }
    let accepted = hands.move_to(window.from.left, window.from.top);
    if window.was_maximized {
        hands.maximize();
    }
    let ghost a = RestoreAnswers { maximized, accepted };
    assert(wanted.deep_view()[at as int] == window.deep_view());
    let ghost deeds = restore_deeds(window.deep_view(), a);
    assert(hands.did() =~= old(hands).did() + deeds);
    assert(hands.did().skip(old(hands).did().len() as int) =~= deeds);
    if accepted {
        let ghost had = done@;
        done.push(window.title.clone());
        assert(texts(done@) =~= texts(had).push(window.title@));
    }
    assert(tried_to_return(deeds, window.deep_view(), texts(old(done)@), texts(done@)));
}

// ---------------------------------------------------------------------------
// What moving a window promises
// ---------------------------------------------------------------------------

/// A window that is swept is moved once: out of filling its display first where
/// it filled it, and made to fill the new one after. Where it fits on the other
/// display it is moved to a place from which all of it is on that display.
pub proof fn law_a_swept_window_is_moved_onto_the_other_display(
    original: Rect,
    source: Rect,
    target: Rect,
    a: SweepAnswers,
)
    requires
        ({
            let from = if a.maximized && a.again is Some {
                a.again->0
            } else {
                original
            };
            &&& 0 <= from.right - from.left <= target.right - target.left
            &&& 0 <= from.bottom - from.top <= target.bottom - target.top
        }),
    ensures
        ({
            let deeds = sweep_deeds(original, source, target, a);
            let from = if a.maximized && a.again is Some {
                a.again->0
            } else {
                original
            };
            let at = if a.maximized {
                3int
            } else {
                1
            };
            &&& deeds[0] == Deed::Asked(a.maximized)
            &&& a.maximized ==> deeds[1] == Deed::Restored && deeds.last() == Deed::Enlarged
            &&& deeds.contains(Deed::Enlarged) ==> a.maximized
            &&& deeds.contains(Deed::Restored) ==> a.maximized
            &&& deeds[at] matches Deed::Moved(x, y, accepted) && {
                &&& accepted == a.accepted
                &&& target.left <= x && x + (from.right - from.left) <= target.right
                &&& target.top <= y && y + (from.bottom - from.top) <= target.bottom
            }
            &&& forall|i: int| 0 <= i < deeds.len() && i != at ==> #[trigger] deeds[i] !is Moved
            &&& a.accepted ==> deeds[at + 1] == Deed::Looked(a.after)
        }),
{
}

/// A window that was swept off a display and then put back is moved to where
/// the sweep found it, and fills its display again exactly where it had.
pub proof fn law_a_swept_window_is_put_back_where_it_was(
    report: SweepReportView,
    title: Seq<char>,
    original: Rect,
    source: Rect,
    a: SweepAnswers,
    b: RestoreAnswers,
)
    requires
        a.accepted,
        a.after matches Some(now) && now.left <= now.right && now.top <= now.bottom && !(source.left
            <= now.left + (now.right - now.left) / 2 < source.right && source.top <= now.top + (
        now.bottom - now.top) / 2 < source.bottom),
    ensures
        ({
            let after = with_swept(report, title, original, source, a);
            let w = after.moved.last();
            let deeds = restore_deeds(w, b);
            let at = if b.maximized {
                2int
            } else {
                1
            };
            &&& after.moved.len() == report.moved.len() + 1
            &&& after.moved.drop_last() == report.moved
            &&& after.skipped == report.skipped
            &&& w.title == title
            &&& deeds[0] == Deed::Asked(b.maximized)
            &&& b.maximized ==> deeds[1] == Deed::Restored
            &&& deeds[at] == Deed::Moved(original.left, original.top, b.accepted)
            &&& a.maximized ==> deeds.last() == Deed::Enlarged && deeds.len() == at + 2
            &&& !a.maximized ==> deeds.len() == at + 1
        }),
{
    let after = with_swept(report, title, original, source, a);
    assert(after.moved.drop_last() =~= report.moved);
}

/// A window whose move was refused, or whose middle is still on the display, is
/// told as left behind.
pub proof fn law_a_window_that_stays_is_told_as_left_behind(
    report: SweepReportView,
    title: Seq<char>,
    original: Rect,
    source: Rect,
    a: SweepAnswers,
)
    requires
        !a.accepted || (a.after matches Some(now) ==> now.left <= now.right && now.top <= now.bottom
            && source.left <= now.left + (now.right - now.left) / 2 < source.right && source.top
            <= now.top + (now.bottom - now.top) / 2 < source.bottom),
    ensures
        with_swept(report, title, original, source, a).moved == report.moved,
        with_swept(report, title, original, source, a).skipped == report.skipped.push(title),
{
}

} // verus!

//! This computer's desktop around a monitor.
//!
//! Separate from switching the monitor's input, and driven by its own
//! commands. A monitor can be displayed by the other computer while this one
//! still has it attached: that is the normal state, and it is why a window can
//! end up somewhere nobody can see it.

use vstd::prelude::*;

use crate::config::{
    is_asked_for, law_a_name_finds_the_first_that_answers, Config, ConfigView,
};
use crate::desktop::{
    can_take_over, law_the_primary_role_goes_to_the_largest, promotion_choice, promotion_target,
    DesktopDisplay, DesktopDisplayView, MovedWindow, MovedWindowView, RestoreReport, RestoreReportView, SavedDisplayMode, SweepReport,
    SweepReportView,
};
use crate::digits::{dec, decimal, signed_dec, signed_decimal};
use crate::doctor::Told;
use crate::keyed::{
    got, in_order, inserted, keys_in, law_removing_undoes_inserting, law_what_is_kept_is_found,
    lemma_lone_fit, removed, Keyed,
};
use crate::listing::opt_config;
use crate::page::{
    bullet_lines, field_line, heading_lines, law_every_item_has_its_line, nothing, said,
    warning_line, LineView, Page,
};
use crate::seqs::{
    first_index, lemma_filter_members, lemma_filter_no_one, lemma_filter_one, lemma_filter_take,
    lemma_filter_take_none, lemma_filter_two, lemma_first_index_here, lemma_first_index_none,
};
use crate::switch::keys_of;
use crate::text::{
    cat2, cat3, cat4, cat5, cat7, has_text_in, join, joined, same, texts,
};
use crate::types::{opt_str, DetectedMonitor, DetectedMonitorView, Transport};

verus! {

// ---------------------------------------------------------------------------
// Which display
// ---------------------------------------------------------------------------

pub open spec fn is_internal() -> spec_fn(DetectedMonitorView) -> bool {
    |m: DetectedMonitorView| m.identity.transport is Internal
}

pub open spec fn ids_of(ms: Seq<DetectedMonitorView>) -> Seq<Seq<char>> {
    ms.map_values(|m: DetectedMonitorView| m.identity.backend_id)
}

/// Device paths that must never be detached: the internal panel is the
/// recovery display.
pub fn protected_paths(detected: &[DetectedMonitor]) -> (r: Vec<String>)
    ensures
        texts(r@) == ids_of(detected.deep_view().filter(is_internal())),
{
    let ghost all = detected.deep_view();
    let ghost p = is_internal();
    let mut out: Vec<String> = Vec::new();
    let mut i: usize = 0;
    proof {
        lemma_filter_take_none(all, p);
        assert(texts(out@) =~= ids_of(all.take(0).filter(p)));
    }
    while i < detected.len()
        invariant
            i <= detected@.len(),
            all == detected.deep_view(),
            p == is_internal(),
            texts(out@) == ids_of(all.take(i as int).filter(p)),
        decreases detected@.len() - i,
    {
        proof {
            lemma_filter_take(all, p, i as int);
            assert(all[i as int] == detected@[i as int].deep_view());
        }
        let internal = match &detected[i].identity.transport {
            Transport::Internal => true,
            _ => false,
        };
        if internal {
            let ghost had = texts(out@);
            let ghost before = all.take(i as int).filter(p);
            out.push(detected[i].identity.backend_id.clone());
            assert(texts(out@) =~= had.push(all[i as int].identity.backend_id));
            assert(ids_of(before.push(all[i as int])) =~= ids_of(before).push(
                all[i as int].identity.backend_id,
            ));
        }
        i += 1;
    }
    proof {
        lemma_filter_take_none(all, p);
    }
    out
}

/// Holds of the displays a selector means: a device path or a name of the
/// operating system's own.
pub open spec fn meant_by(selector: Seq<char>) -> spec_fn(DesktopDisplayView) -> bool {
    |d: DesktopDisplayView| d.matches_id(selector) || d.gdi_name == selector
}

/// The one display a selector means, or why there is none.
pub open spec fn display_choice(
    manager: Seq<char>,
    displays: Seq<DesktopDisplayView>,
    selector: Seq<char>,
) -> Result<DesktopDisplayView, Seq<char>> {
    let found = displays.filter(meant_by(selector));
    if displays.len() == 0 {
        Err(
            "this build cannot manage desktop attachment on this platform (`"@ + manager
                + "` backend); `release`, `claim` and `sweep` are Windows-only for now"@,
        )
    } else if found.len() == 0 {
        Err(
            "no display on this computer matches `"@ + selector
                + "`. It may already be released; run `desktop-switcher displays` to see."@,
        )
    } else if found.len() == 1 {
        Ok(found[0])
    } else {
        Err(
            "`"@ + selector + "` matches "@ + decimal(found.len())
                + " displays; refusing to guess"@,
        )
    }
}

pub open spec fn display_result(r: Result<DesktopDisplay, String>) -> Result<
    DesktopDisplayView,
    Seq<char>,
> {
    match r {
        Ok(d) => Ok(d.deep_view()),
        Err(e) => Err(e@),
    }
}

/// The display that a configured monitor is, among those of the desktop.
pub fn display_for(manager: &str, displays: &[DesktopDisplay], selector: &str) -> (r: Result<
    DesktopDisplay,
    String,
>)
    ensures
        display_result(r) == display_choice(manager@, displays.deep_view(), selector@),
{
    if displays.len() == 0 {
        return Err(
            cat3(
                "this build cannot manage desktop attachment on this platform (`",
                manager,
                "` backend); `release`, `claim` and `sweep` are Windows-only for now",
            ),
        );
    }
    let ghost all = displays.deep_view();
    let ghost p = meant_by(selector@);
    let mut found: Vec<usize> = Vec::new();
    let mut i: usize = 0;
    proof {
        lemma_filter_take_none(all, p);
    }
    while i < displays.len()
        invariant
            i <= displays@.len(),
            all == displays.deep_view(),
            p == meant_by(selector@),
            found@.len() == all.take(i as int).filter(p).len(),
            forall|k: int|
                0 <= k < found@.len() ==> (#[trigger] found@[k]) < displays@.len()
                    && all[found@[k] as int] == all.take(i as int).filter(p)[k],
        decreases displays@.len() - i,
    {
        proof {
            lemma_filter_take(all, p, i as int);
            assert(all[i as int] == displays@[i as int].deep_view());
        }
        if displays[i].matches_backend_id(selector) || same(
            displays[i].gdi_name.as_str(),
            selector,
        ) {
            found.push(i);
        }
        i += 1;
    }
    proof {
        lemma_filter_take_none(all, p);
    }
    if found.len() == 0 {
        Err(
            cat3(
                "no display on this computer matches `",
                selector,
                "`. It may already be released; run `desktop-switcher displays` to see.",
            ),
        )
    } else if found.len() == 1 {
        let at: usize = found[0];
        Ok(displays[at].clone())
    } else {
        Err(
            cat5(
                "`",
                selector,
                "` matches ",
                dec(found.len() as u64).as_str(),
                " displays; refusing to guess",
            ),
        )
    }
}

/// A display is only acted upon where a selector means it and no other.
pub proof fn law_a_selector_means_one_display(
    manager: Seq<char>,
    displays: Seq<DesktopDisplayView>,
    selector: Seq<char>,
)
    ensures
        display_choice(manager, displays, selector) matches Ok(d) ==> displays.contains(d)
            && meant_by(selector)(d),
        display_choice(manager, displays, selector) is Ok <==> displays.filter(
            meant_by(selector),
        ).len() == 1,
{
    lemma_filter_members(displays, meant_by(selector));
    if displays.len() == 0 {
        lemma_filter_take_none(displays, meant_by(selector));
        assert(displays.take(0) =~= displays);
    }
}

// ---------------------------------------------------------------------------
// Opting in
// ---------------------------------------------------------------------------

pub open spec fn unreliable_text(command: Seq<char>) -> Seq<char> {
    "`"@ + command
        + "` changes the Windows display topology and is not reliable yet.\n\nOn this hardware it has left monitors mirrored instead of extended, and has reported a detached display as attached. Recovering needs Settings > System > Display.\n\nIf you want the stranded-window problem solved, use `desktop-switcher sweep` instead: it moves windows off a monitor without changing topology and cannot cost you a screen.\n\nTo run it anyway, pass --experimental."@
}

/// Refuses a change to the display topology unless someone has opted in.
pub fn require_experimental(experimental: bool, command: &str) -> (r: Result<(), String>)
    ensures
        match r {
            Ok(_) => experimental,
            Err(e) => !experimental && e@ == unreliable_text(command@),
        },
{
    if experimental {
        Ok(())
    } else {
        Err(
            cat3(
                "`",
                command,
                "` changes the Windows display topology and is not reliable yet.\n\nOn this hardware it has left monitors mirrored instead of extended, and has reported a detached display as attached. Recovering needs Settings > System > Display.\n\nIf you want the stranded-window problem solved, use `desktop-switcher sweep` instead: it moves windows off a monitor without changing topology and cannot cost you a screen.\n\nTo run it anyway, pass --experimental.",
            ),
        )
    }
}

/// The backend id and the label of the monitor that is meant. A name that is
/// not configured is taken as it stands: a display that is not managed can
/// still get stranded, and refusing to name it would leave no way to put it
/// back.
pub open spec fn target_choice(config: Option<ConfigView>, monitor: Option<Seq<char>>) -> Result<
    (Seq<char>, Seq<char>),
    Seq<char>,
> {
    match config {
        None => Err("no configuration yet. Run `desktop-switcher configure` first."@),
        Some(config) => match monitor {
            Some(name) => match config.monitor(name) {
                Some(m) => Ok((m.backend_id, m.label)),
                None => Ok((name, name)),
            },
            None => if config.monitors.len() == 1 {
                Ok((config.monitors[0].backend_id, config.monitors[0].label))
            } else if config.monitors.len() == 0 {
                Err("no monitors are configured"@)
            } else {
                Err(
                    "several monitors are configured ("@ + joined(keys_of(config.monitors), ", "@)
                        + "); name one with --monitor"@,
                )
            },
        },
    }
}

pub open spec fn target_result(r: Result<(String, String), String>) -> Result<
    (Seq<char>, Seq<char>),
    Seq<char>,
> {
    match r {
        Ok((id, label)) => Ok((id@, label@)),
        Err(e) => Err(e@),
    }
}

/// The monitor that is meant.
pub fn target_monitor(config: Option<&Config>, monitor: Option<&str>) -> (r: Result<
    (String, String),
    String,
>)
    ensures
        target_result(r) == target_choice(opt_config(config), opt_str(monitor)),
{
    let config = match config {
        Some(c) => c,
        None => {
            return Err(
                "no configuration yet. Run `desktop-switcher configure` first.".to_owned(),
            );
        },
    };
    match monitor {
        Some(name) => match config.monitor(name) {
            Some(m) => Ok((m.backend_id.clone(), m.label.clone())),
            None => Ok((name.to_owned(), name.to_owned())),
        },
        None => {
            if config.monitors.len() == 1 {
                let m = &config.monitors[0];
                assert(config.deep_view().monitors[0] == m.deep_view());
                Ok((m.backend_id.clone(), m.label.clone()))
            } else if config.monitors.len() == 0 {
                Err("no monitors are configured".to_owned())
            } else {
                let keys = monitor_keys(config);
                Err(
                    cat3(
                        "several monitors are configured (",
                        join(keys.as_slice(), ", ").as_str(),
                        "); name one with --monitor",
                    ),
                )
            }
        },
    }
}

fn monitor_keys(config: &Config) -> (r: Vec<String>)
    ensures
        texts(r@) == keys_of(config.deep_view().monitors),
{
    let ghost want = keys_of(config.deep_view().monitors);
    let mut out: Vec<String> = Vec::new();
    let mut i: usize = 0;
    assert(texts(out@) =~= want.take(0));
    while i < config.monitors.len()
        invariant
            i <= config.monitors@.len(),
            want == keys_of(config.deep_view().monitors),
            texts(out@) == want.take(i as int),
        decreases config.monitors@.len() - i,
    {
        assert(config.deep_view().monitors[i as int] == config.monitors@[i as int].deep_view());
        let ghost had = texts(out@);
        out.push(config.monitors[i].key.clone());
        assert(texts(out@) =~= had.push(want[i as int]));
        i += 1;
    }
    assert(want.take(want.len() as int) =~= want);
    out
}

// ---------------------------------------------------------------------------
// displays
// ---------------------------------------------------------------------------

/// What a display is called: its friendly name, else the system's own.
pub open spec fn shown_name(d: DesktopDisplayView) -> Seq<char> {
    match d.friendly_name {
        Some(name) => name,
        None => d.gdi_name,
    }
}

pub fn display_name(d: &DesktopDisplay) -> (r: &str)
    ensures
        r@ == shown_name(d.deep_view()),
{
    match &d.friendly_name {
        Some(name) => name.as_str(),
        None => d.gdi_name.as_str(),
    }
}

/// Two attached displays that share an area are mirrored, not extended, which
/// makes the pair look exactly like a missing monitor.
pub open spec fn mirrors(d: DesktopDisplayView) -> spec_fn(DesktopDisplayView) -> bool {
    |o: DesktopDisplayView|
        o.is_attached && d.is_attached && o.device_path != d.device_path && o.rect == d.rect
            && !o.rect.empty()
}

pub open spec fn names_shown(ds: Seq<DesktopDisplayView>) -> Seq<Seq<char>> {
    ds.map_values(|d: DesktopDisplayView| shown_name(d))
}

/// One of the keys is this display's.
pub open spec fn is_released(keys: Seq<Seq<char>>, d: DesktopDisplayView) -> bool {
    exists|i: int| 0 <= i < keys.len() && d.matches_id(#[trigger] keys[i])
}

pub open spec fn area_text(d: DesktopDisplayView) -> Seq<char> {
    signed_decimal(d.rect.spec_width()) + "x"@ + signed_decimal(d.rect.spec_height()) + " at ("@
        + signed_decimal(d.rect.left as int) + ", "@ + signed_decimal(d.rect.top as int) + ")"@
}

/// What is said of a display.
pub open spec fn display_lines(
    d: DesktopDisplayView,
    all: Seq<DesktopDisplayView>,
    keys: Seq<Seq<char>>,
) -> Seq<LineView> {
    let twins = all.filter(mirrors(d));
    said(""@) + said(
        shown_name(d) + if d.is_primary {
            "  [primary]"@
        } else {
            ""@
        },
    ) + field_line("gdi name"@, d.gdi_name) + field_line("device path"@, d.device_path)
        + field_line(
        "attached"@,
        if d.is_attached {
            "yes — this computer draws on it"@
        } else {
            "no — not part of this desktop"@
        },
    ) + (if d.is_attached {
        field_line("area"@, area_text(d))
    } else {
        nothing()
    }) + (if twins.len() > 0 {
        field_line(
            "mirrored with"@,
            joined(names_shown(twins), ", "@) + " — same area, so they show the same thing"@,
        )
    } else {
        nothing()
    }) + (if d.is_internal {
        field_line("protected"@, "built-in panel; never detached"@)
    } else {
        nothing()
    }) + (if is_released(keys, d) {
        field_line("note"@, "released by this tool; `claim` will restore it"@)
    } else {
        nothing()
    })
}

fn twin_names(d: &DesktopDisplay, all: &[DesktopDisplay]) -> (r: Vec<String>)
    ensures
        texts(r@) == names_shown(all.deep_view().filter(mirrors(d.deep_view()))),
{
    let ghost ds = all.deep_view();
    let ghost p = mirrors(d.deep_view());
    let mut out: Vec<String> = Vec::new();
    let mut i: usize = 0;
    proof {
        lemma_filter_take_none(ds, p);
        assert(texts(out@) =~= names_shown(ds.take(0).filter(p)));
    }
    while i < all.len()
        invariant
            i <= all@.len(),
            ds == all.deep_view(),
            p == mirrors(d.deep_view()),
            texts(out@) == names_shown(ds.take(i as int).filter(p)),
        decreases all@.len() - i,
    {
        let o = &all[i];
        proof {
            lemma_filter_take(ds, p, i as int);
            assert(ds[i as int] == o.deep_view());
        }
        if o.is_attached && d.is_attached && !same(o.device_path.as_str(), d.device_path.as_str())
            && o.rect == d.rect && !o.rect.is_empty() {
            let ghost had = texts(out@);
            let ghost before = ds.take(i as int).filter(p);
            out.push(display_name(o).to_owned());
            assert(texts(out@) =~= had.push(shown_name(ds[i as int])));
            assert(names_shown(before.push(ds[i as int])) =~= names_shown(before).push(
                shown_name(ds[i as int]),
            ));
        }
        i += 1;
    }
    proof {
        lemma_filter_take_none(ds, p);
    }
    out
}

fn is_among(keys: &Vec<String>, d: &DesktopDisplay) -> (r: bool)
    ensures
        r == is_released(texts(keys@), d.deep_view()),
{
    let ghost all = texts(keys@);
    let mut i: usize = 0;
    while i < keys.len()
        invariant
            i <= keys@.len(),
            all == texts(keys@),
            forall|j: int| 0 <= j < i ==> !d.deep_view().matches_id(#[trigger] all[j]),
        decreases keys@.len() - i,
    {
        assert(all[i as int] == keys@[i as int]@);
        if d.matches_backend_id(keys[i].as_str()) {
            assert(d.deep_view().matches_id(all[i as int]));
            return true;
        }
        i += 1;
    }
    false
}

fn tell_display(page: &mut Page, d: &DesktopDisplay, all: &[DesktopDisplay], keys: &Vec<String>)
    requires
        d.is_attached ==> d.rect.fits(),
    ensures
        final(page)@ == old(page)@ + display_lines(d.deep_view(), all.deep_view(), texts(keys@)),
{
    let ghost v = d.deep_view();
    page.put("");
    page.say(
        cat2(
            display_name(d),
            if d.is_primary {
                "  [primary]"
            } else {
                ""
            },
        ),
    );
    page.field("gdi name", d.gdi_name.as_str());
    page.field("device path", d.device_path.as_str());
    page.field(
        "attached",
        if d.is_attached {
            "yes — this computer draws on it"
        } else {
            "no — not part of this desktop"
        },
    );
    let ghost p0 = page@;
    if d.is_attached {
        let size = cat3(
            signed_dec(d.rect.width()).as_str(),
            "x",
            signed_dec(d.rect.height()).as_str(),
        );
        page.field(
            "area",
            cat7(
                size.as_str(),
                " at (",
                signed_dec(d.rect.left).as_str(),
                ", ",
                signed_dec(d.rect.top).as_str(),
                ")",
                "",
            ).as_str(),
        );
        assert(page@ =~= p0 + field_line("area"@, area_text(v))) by {
            reveal_strlit("");
            assert(area_text(v) + ""@ =~= area_text(v));
        }
    }
    let ghost p1 = page@;
    let twins = twin_names(d, all);
    let ghost found = all.deep_view().filter(mirrors(v));
    assert(texts(twins@).len() == twins@.len());
    assert(names_shown(found).len() == found.len());
    if twins.len() > 0 {
        page.field(
            "mirrored with",
            cat2(
                join(twins.as_slice(), ", ").as_str(),
                " — same area, so they show the same thing",
            ).as_str(),
        );
    }
    let ghost p2 = page@;
    if d.is_internal {
        page.field("protected", "built-in panel; never detached");
    }
    let ghost p3 = page@;
    if is_among(keys, d) {
        page.field("note", "released by this tool; `claim` will restore it");
    }
    assert(page@ =~= old(page)@ + display_lines(v, all.deep_view(), texts(keys@)));
}

pub open spec fn all_display_lines(
    first: Seq<DesktopDisplayView>,
    all: Seq<DesktopDisplayView>,
    keys: Seq<Seq<char>>,
) -> Seq<LineView>
    decreases first.len(),
{
    if first.len() == 0 {
        nothing()
    } else {
        all_display_lines(first.drop_last(), all, keys) + display_lines(first.last(), all, keys)
    }
}

pub open spec fn displays_lines(
    manager: Seq<char>,
    all: Seq<DesktopDisplayView>,
    keys: Seq<Seq<char>>,
) -> Seq<LineView> {
    heading_lines("Desktop displays ("@ + manager + " backend)"@) + if all.len() == 0 {
        said("  Desktop attachment is not available on this platform."@)
    } else {
        all_display_lines(all, all, keys)
    }
}

/// Lists the displays as this computer's desktop sees them. The code is 1
/// where it sees none.
pub fn displays(manager: &str, all: &[DesktopDisplay], released: &ReleasedState) -> (r: Told)
    requires
        forall|i: int|
            0 <= i < all@.len() && (#[trigger] all@[i]).is_attached ==> all@[i].rect.fits(),
    ensures
        r.page@ == displays_lines(manager@, all.deep_view(), keys_in(released.released.seq())),
        r.code == if all@.len() == 0 {
            1i32
        } else {
            0
        },
{
    let ghost ds = all.deep_view();
    let mut page = Page::new();
    page.heading(cat3("Desktop displays (", manager, " backend)").as_str());
    if all.len() == 0 {
        page.put("  Desktop attachment is not available on this platform.");
        assert(page@ =~= displays_lines(manager@, ds, keys_in(released.released.seq())));
        return Told { page, code: 1 };
    }
    let keys = released.released.keys();
    let ghost ks = texts(keys@);
    let ghost head = page@;
    let mut i: usize = 0;
    assert(ds.take(0) =~= Seq::<DesktopDisplayView>::empty());
    assert(page@ =~= head + all_display_lines(ds.take(0), ds, ks));
    while i < all.len()
        invariant
            i <= all@.len(),
            ds == all.deep_view(),
            ks == texts(keys@),
            forall|j: int|
                0 <= j < all@.len() && (#[trigger] all@[j]).is_attached ==> all@[j].rect.fits(),
            page@ == head + all_display_lines(ds.take(i as int), ds, ks),
        decreases all@.len() - i,
    {
        let ghost next = ds.take(i as int + 1);
        assert(next.drop_last() =~= ds.take(i as int));
        assert(next.last() == all@[i as int].deep_view());
        tell_display(&mut page, &all[i], all, &keys);
        assert(page@ =~= head + all_display_lines(next, ds, ks));
        i += 1;
    }
    assert(ds.take(ds.len() as int) =~= ds);
    assert(page@ =~= displays_lines(manager@, ds, ks));
    Told { page, code: 0 }
}

// ---------------------------------------------------------------------------
// What is remembered
// ---------------------------------------------------------------------------

/// Displays this computer has released, and how to put each one back. A
/// release and its matching claim are separate runs of the program.
#[derive(Debug, PartialEq, Eq)]
pub struct ReleasedState {
    pub released: Keyed<SavedDisplayMode>,
    /// Displays that were the primary one when they were released. The role
    /// has to go to another screen first; remembering that lets a claim give
    /// it back.
    pub was_primary: Vec<String>,
}

pub struct ReleasedStateView {
    pub released: Seq<(Seq<char>, SavedDisplayMode)>,
    pub was_primary: Seq<Seq<char>>,
}

impl DeepView for ReleasedState {
    type V = ReleasedStateView;

    open spec fn deep_view(&self) -> ReleasedStateView {
        ReleasedStateView {
            released: self.released.seq(),
            was_primary: texts(self.was_primary@),
        }
    }
}

impl Default for ReleasedState {
    fn default() -> (r: Self)
        ensures
            r.wf(),
            r.deep_view() == ReleasedStateView::none(),
    {
        let r = ReleasedState { released: Keyed::new(), was_primary: Vec::new() };
        assert(texts(r.was_primary@) =~= Seq::<Seq<char>>::empty());
        r
    }
}

impl ReleasedStateView {
    pub open spec fn none() -> Self {
        ReleasedStateView { released: Seq::empty(), was_primary: Seq::empty() }
    }

    /// With one more display released.
    pub open spec fn with(self, id: Seq<char>, saved: SavedDisplayMode, was_primary: bool) -> Self {
        ReleasedStateView {
            released: inserted(self.released, id, saved),
            was_primary: if was_primary && !self.was_primary.contains(id) {
                self.was_primary.push(id)
            } else {
                self.was_primary
            },
        }
    }

    /// With a display claimed back.
    pub open spec fn without(self, key: Seq<char>) -> Self {
        ReleasedStateView {
            released: removed(self.released, key),
            was_primary: self.was_primary.filter(other_than(key)),
        }
    }
}

pub open spec fn other_than(key: Seq<char>) -> spec_fn(Seq<char>) -> bool {
    |p: Seq<char>| p != key
}

impl ReleasedState {
    pub open spec fn wf(&self) -> bool {
        self.released.wf()
    }

    /// Remembers a display that was released.
    pub fn remember(&mut self, id: &str, saved: SavedDisplayMode, was_primary: bool)
        requires
            old(self).wf(),
        ensures
            final(self).wf(),
            final(self).deep_view() == old(self).deep_view().with(id@, saved, was_primary),
    {
        let ghost had = self.deep_view();
        self.released.insert(id.to_owned(), saved);
        if was_primary && !has_text_in(&self.was_primary, id) {
            let ghost before = self.was_primary@;
            self.was_primary.push(id.to_owned());
            assert(texts(self.was_primary@) =~= texts(before).push(id@));
        }
    }

    /// Forgets a display that was claimed back, and says whether it had been
    /// the primary one.
    pub fn forget(&mut self, key: &str) -> (was_primary: bool)
        requires
            old(self).wf(),
        ensures
            final(self).wf(),
            final(self).deep_view() == old(self).deep_view().without(key@),
            was_primary == old(self).deep_view().was_primary.contains(key@),
    {
        let ghost had = self.deep_view();
        let ghost all = had.was_primary;
        let ghost p = other_than(key@);
        let primary = has_text_in(&self.was_primary, key);
        self.released.remove(key);
        let mut kept: Vec<String> = Vec::new();
        let mut i: usize = 0;
        proof {
            lemma_filter_take_none(all, p);
            assert(texts(kept@) =~= all.take(0).filter(p));
        }
        while i < self.was_primary.len()
            invariant
                i <= self.was_primary@.len(),
                all == texts(self.was_primary@),
                p == other_than(key@),
                texts(kept@) == all.take(i as int).filter(p),
            decreases self.was_primary@.len() - i,
        {
            proof {
                lemma_filter_take(all, p, i as int);
                assert(all[i as int] == self.was_primary@[i as int]@);
            }
            if !same(self.was_primary[i].as_str(), key) {
                let ghost before = kept@;
                kept.push(self.was_primary[i].clone());
                assert(texts(kept@) =~= texts(before).push(all[i as int]));
            }
            i += 1;
        }
        proof {
            lemma_filter_take_none(all, p);
        }
        self.was_primary = kept;
        primary
    }
}

// ---------------------------------------------------------------------------
// primary
// ---------------------------------------------------------------------------

/// The line when a monitor has the primary role already.
pub fn already_primary(label: &str) -> (r: String)
    ensures
        r@ == "`"@ + label@ + "` is already the primary display. Nothing to do."@,
{
    cat3("`", label, "` is already the primary display. Nothing to do.")
}

/// The line once a monitor has been given the primary role.
pub fn now_primary(label: &str) -> (r: String)
    ensures
        r@ == "`"@ + label@ + "` is now the primary display."@,
{
    cat3("`", label, "` is now the primary display.")
}

// ---------------------------------------------------------------------------
// release
// ---------------------------------------------------------------------------

/// How a release begins.
#[derive(Debug, PartialEq, Eq)]
pub enum ReleaseStart {
    /// It is detached already.
    Already(String),
    /// It is the primary display, and the role goes to this one first.
    Promote { to: DesktopDisplay, line: String },
    /// It is the primary display, and nothing can take the role.
    Stuck(String),
    Detach,
}

pub enum ReleaseStartView {
    Already(Seq<char>),
    Promote { to: DesktopDisplayView, line: Seq<char> },
    Stuck(Seq<char>),
    Detach,
}

impl DeepView for ReleaseStart {
    type V = ReleaseStartView;

    open spec fn deep_view(&self) -> ReleaseStartView {
        match self {
            ReleaseStart::Already(s) => ReleaseStartView::Already(s@),
            ReleaseStart::Promote { to, line } => ReleaseStartView::Promote {
                to: to.deep_view(),
                line: line@,
            },
            ReleaseStart::Stuck(s) => ReleaseStartView::Stuck(s@),
            ReleaseStart::Detach => ReleaseStartView::Detach,
        }
    }
}

/// How a release begins. The system does not detach the primary display, so
/// the role is handed over first.
pub open spec fn release_start(
    display: DesktopDisplayView,
    all: Seq<DesktopDisplayView>,
    label: Seq<char>,
) -> ReleaseStartView {
    if !display.is_attached {
        ReleaseStartView::Already(
            "`"@ + label + "` is already detached from this desktop. Nothing to do."@,
        )
    } else if !display.is_primary {
        ReleaseStartView::Detach
    } else {
        match promotion_choice(all, display) {
            None => ReleaseStartView::Stuck(
                "`"@ + label
                    + "` is the primary display and there is no other attached display to hand that role to, so it cannot be released."@,
            ),
            Some(to) => ReleaseStartView::Promote {
                to,
                line: "`"@ + label + "` is the primary display; making "@ + shown_name(to)
                    + " primary first."@,
            },
        }
    }
}

/// Decides how to begin a release.
pub fn begin_release(display: &DesktopDisplay, all: &[DesktopDisplay], label: &str) -> (r:
    ReleaseStart)
    ensures
        r.deep_view() == release_start(display.deep_view(), all.deep_view(), label@),
{
    if !display.is_attached {
        return ReleaseStart::Already(
            cat3("`", label, "` is already detached from this desktop. Nothing to do."),
        );
    }
    if !display.is_primary {
        return ReleaseStart::Detach;
    }
    match promotion_target(all, display) {
        None => ReleaseStart::Stuck(
            cat3(
                "`",
                label,
                "` is the primary display and there is no other attached display to hand that role to, so it cannot be released.",
            ),
        ),
        Some(to) => ReleaseStart::Promote {
            to: to.clone(),
            line: cat5(
                "`",
                label,
                "` is the primary display; making ",
                display_name(to),
                " primary first.",
            ),
        },
    }
}

pub open spec fn opt_undo(o: Option<Result<(), String>>) -> Option<Result<(), Seq<char>>> {
    match o {
        None => None,
        Some(Ok(_)) => Some(Ok(())),
        Some(Err(e)) => Some(Err(e@)),
    }
}

/// What is said of a detach that failed. Where the primary role had been moved
/// for it, it was given back, or that failed as well.
pub open spec fn detach_failure(
    why: Seq<char>,
    label: Seq<char>,
    undo: Option<Result<(), Seq<char>>>,
) -> Seq<char> {
    match undo {
        None => why,
        Some(Ok(_)) => why
            + "\n\nThe primary display was moved in order to attempt this and has been put back, so nothing has changed overall."@,
        Some(Err(e)) => why + "\n\nWorse: `"@ + label
            + "` had already been demoted from primary to attempt the detach, and restoring it failed too ("@
            + e
            + "). Your desktop arrangement has changed. Put it back in Settings > System > Display: select the display you want and tick \"Make this my main display\"."@,
    }
}

/// The error of a detach that failed. `undo` is what came of giving the
/// primary role back, where it had been moved.
pub fn detach_failed(why: &str, label: &str, undo: Option<Result<(), String>>) -> (r: String)
    ensures
        r@ == detach_failure(why@, label@, opt_undo(undo)),
{
    match undo {
        None => why.to_owned(),
        Some(Ok(_)) => cat2(
            why,
            "\n\nThe primary display was moved in order to attempt this and has been put back, so nothing has changed overall.",
        ),
        Some(Err(e)) => {
            let first = cat4(
                why,
                "\n\nWorse: `",
                label,
                "` had already been demoted from primary to attempt the detach, and restoring it failed too (",
            );
            cat3(
                first.as_str(),
                e.as_str(),
                "). Your desktop arrangement has changed. Put it back in Settings > System > Display: select the display you want and tick \"Make this my main display\".",
            )
        },
    }
}

pub open spec fn released_lines(label: Seq<char>) -> Seq<LineView> {
    said("Released `"@ + label + "` from this desktop."@) + said(
        "Windows that were on it have been relocated by the OS."@,
    ) + said("Run `desktop-switcher claim "@ + label + "` to bring it back."@)
}

/// What is said once a display has been released.
pub fn released(label: &str) -> (r: Page)
    ensures
        r@ == released_lines(label@),
{
    let mut page = Page::new();
    page.say(cat3("Released `", label, "` from this desktop."));
    page.put("Windows that were on it have been relocated by the OS.");
    page.say(cat3("Run `desktop-switcher claim ", label, "` to bring it back."));
    assert(page@ =~= released_lines(label@));
    page
}

// ---------------------------------------------------------------------------
// claim
// ---------------------------------------------------------------------------

/// The line when a display is part of the desktop already.
pub fn already_attached(label: &str) -> (r: String)
    ensures
        r@ == "`"@ + label@ + "` is already attached to this desktop. Nothing to do."@,
{
    cat3("`", label, "` is already attached to this desktop. Nothing to do.")
}

/// A mode that leaves everything to the system.
pub open spec fn any_mode() -> SavedDisplayMode {
    SavedDisplayMode {
        width: 0,
        height: 0,
        pos_x: 0,
        pos_y: 0,
        refresh_hz: 0,
        bits_per_pixel: 0,
    }
}

pub open spec fn saved_of(d: DesktopDisplayView) -> spec_fn((Seq<char>, SavedDisplayMode)) -> bool {
    |e: (Seq<char>, SavedDisplayMode)| d.matches_id(e.0)
}

/// The layout saved for a display, with the key it is under. No saved layout
/// is no reason to refuse: having the display back in the wrong place beats
/// not having it back.
pub open spec fn layout_for(
    state: ReleasedStateView,
    display: DesktopDisplayView,
    id: Seq<char>,
) -> (Seq<char>, SavedDisplayMode, bool) {
    match first_index(state.released, saved_of(display)) {
        Some(i) => (state.released[i].0, state.released[i].1, true),
        None => (id, any_mode(), false),
    }
}

/// The layout to put a display back with, the key it is saved under, and
/// whether one was saved at all.
pub fn saved_layout(state: &ReleasedState, display: &DesktopDisplay, id: &str) -> (r: (
    String,
    SavedDisplayMode,
    bool,
))
    ensures
        (r.0@, r.1, r.2) == layout_for(state.deep_view(), display.deep_view(), id@),
{
    let ghost s = state.deep_view().released;
    let ghost p = saved_of(display.deep_view());
    let mut i: usize = 0;
    while i < state.released.entries.len()
        invariant
            i <= state.released.entries@.len(),
            s == state.deep_view().released,
            p == saved_of(display.deep_view()),
            forall|j: int| 0 <= j < i ==> !p(#[trigger] s[j]),
        decreases state.released.entries@.len() - i,
    {
        let entry = &state.released.entries[i];
        assert(s[i as int] == (entry.0@, entry.1));
        if display.matches_backend_id(entry.0.as_str()) {
            proof {
                lemma_first_index_here(s, p, i as int);
            }
            return (entry.0.clone(), entry.1, true);
        }
        i += 1;
    }
    proof {
        lemma_first_index_none(s, p);
    }
    let mode = SavedDisplayMode {
        width: 0,
        height: 0,
        pos_x: 0,
        pos_y: 0,
        refresh_hz: 0,
        bits_per_pixel: 0,
    };
    (id.to_owned(), mode, false)
}

/// The line when no layout was saved.
pub fn no_layout(label: &str) -> (r: String)
    ensures
        r@ == "No saved layout for `"@ + label@
            + "`; Windows will choose its size and position."@,
{
    cat3("No saved layout for `", label, "`; Windows will choose its size and position.")
}

/// What is said of the primary role, where it was to be given back.
pub open spec fn primary_lines(label: Seq<char>, undo: Option<Result<(), Seq<char>>>) -> Seq<
    LineView,
> {
    match undo {
        None => nothing(),
        Some(Ok(_)) => said("Restored `"@ + label + "` as the primary display."@),
        Some(Err(e)) => warning_line(
            "reattached `"@ + label + "` but could not make it primary again: "@ + e,
        ),
    }
}

/// What is said of the primary role after a claim. `primary` is what came of
/// giving it back, where it had been taken away.
pub fn role_returned(label: &str, primary: &Option<Result<(), String>>) -> (r: Page)
    ensures
        r@ == primary_lines(label@, opt_undo(*primary)),
{
    let mut page = Page::new();
    match primary {
        None => {},
        Some(Ok(_)) => {
            page.say(cat3("Restored `", label, "` as the primary display."));
        },
        Some(Err(e)) => {
            page.warn(
                cat4("reattached `", label, "` but could not make it primary again: ", e.as_str()).as_str(),
            );
        },
    }
    assert(page@ =~= primary_lines(label@, opt_undo(*primary)));
    page
}

pub open spec fn claimed_lines(label: Seq<char>, mode: SavedDisplayMode) -> Seq<LineView> {
    said(
        "Claimed `"@ + label + "`: restored at "@ + decimal(mode.width as nat) + "x"@ + decimal(
            mode.height as nat,
        ) + " and ("@ + signed_decimal(mode.pos_x as int) + ", "@ + signed_decimal(
            mode.pos_y as int,
        ) + ")."@,
    )
}

/// What is said once a display has been claimed.
pub fn claimed(label: &str, mode: SavedDisplayMode) -> (r: Page)
    ensures
        r@ == claimed_lines(label@, mode),
{
    let mut page = Page::new();
    let first = cat7(
        "Claimed `",
        label,
        "`: restored at ",
        dec(mode.width as u64).as_str(),
        "x",
        dec(mode.height as u64).as_str(),
        " and (",
    );
    page.say(
        cat5(
            first.as_str(),
            signed_dec(mode.pos_x).as_str(),
            ", ",
            signed_dec(mode.pos_y).as_str(),
            ").",
        ),
    );
    assert(page@ =~= claimed_lines(label@, mode));
    page
}

/// A claim finds what its release saved, and leaves nothing of it behind: the
/// display's layout and whether it was the primary one.
pub proof fn law_a_claim_undoes_a_release(
    state: ReleasedStateView,
    display: DesktopDisplayView,
    id: Seq<char>,
    saved: SavedDisplayMode,
    was_primary: bool,
)
    requires
        in_order(state.released),
        !state.was_primary.contains(id),
        saved_of(display)((id, saved)),
        forall|i: int|
            0 <= i < state.released.len() ==> !saved_of(display)(#[trigger] state.released[i]),
    ensures
        layout_for(state.with(id, saved, was_primary), display, id) == (id, saved, true),
        state.with(id, saved, was_primary).was_primary.contains(id) == was_primary,
        state.with(id, saved, was_primary).without(id).released == state.released,
        state.with(id, saved, was_primary).without(id).was_primary == state.was_primary,
{
    let s = state.released;
    lemma_lone_fit(s, saved_of(display), id, saved);
    assert forall|i: int| 0 <= i < s.len() implies !crate::keyed::under::<SavedDisplayMode>(id)(
        #[trigger] s[i],
    ) by {
        assert(!saved_of(display)(s[i]));
    }
    lemma_first_index_none(s, crate::keyed::under::<SavedDisplayMode>(id));
    law_removing_undoes_inserting(s, id, saved);
    lemma_role_remembered(state.was_primary, id);
}

/// A role that was remembered is forgotten without a trace.
proof fn lemma_role_remembered(all: Seq<Seq<char>>, id: Seq<char>)
    requires
        !all.contains(id),
    ensures
        all.filter(other_than(id)) == all,
        all.push(id).filter(other_than(id)) == all,
        all.push(id).contains(id),
{
    let q = other_than(id);
    assert forall|i: int| 0 <= i < all.len() implies q(#[trigger] all[i]) by {
        assert(all.contains(all[i]));
    }
    lemma_keeps_all(all, q);
    assert(all.push(id)[all.len() as int] == id);
    assert(all.push(id).drop_last() =~= all);
    reveal(Seq::filter);
}

proof fn lemma_keeps_all(s: Seq<Seq<char>>, p: spec_fn(Seq<char>) -> bool)
    requires
        forall|i: int| 0 <= i < s.len() ==> p(#[trigger] s[i]),
    ensures
        s.filter(p) == s,
    decreases s.len(),
{
    reveal(Seq::filter);
    if s.len() > 0 {
        lemma_keeps_all(s.drop_last(), p);
        assert(p(s[s.len() - 1]));
        assert(s.drop_last().push(s.last()) =~= s);
    } else {
        assert(s.filter(p) =~= s);
    }
}

// ---------------------------------------------------------------------------
// sweep
// ---------------------------------------------------------------------------

/// Where windows were before the last sweep, so it can be undone. Kept by
/// monitor: sweeping two and restoring one only puts back what came off that
/// one.
#[derive(Debug, PartialEq, Eq)]
pub struct SweptState {
    pub swept: Keyed<Vec<MovedWindow>>,
}

/// The record after a sweep. A sweep that moved nothing keeps what an earlier
/// one saved.
pub open spec fn swept_after(
    before: Seq<(Seq<char>, Vec<MovedWindow>)>,
    id: Seq<char>,
    moved: Vec<MovedWindow>,
) -> Seq<(Seq<char>, Vec<MovedWindow>)> {
    if moved@.len() == 0 {
        before
    } else {
        inserted(before, id, moved)
    }
}

impl Default for SweptState {
    fn default() -> (r: Self)
        ensures
            r.wf(),
            r.swept.seq() == Seq::<(Seq<char>, Vec<MovedWindow>)>::empty(),
    {
        SweptState { swept: Keyed::new() }
    }
}

impl SweptState {
    pub open spec fn wf(&self) -> bool {
        self.swept.wf()
    }

    /// Remembers where the windows of a sweep came from, and says whether
    /// there was anything to remember.
    pub fn remember(&mut self, id: &str, moved: Vec<MovedWindow>) -> (changed: bool)
        requires
            old(self).wf(),
        ensures
            final(self).wf(),
            final(self).swept.seq() == swept_after(old(self).swept.seq(), id@, moved),
            changed == (moved@.len() > 0),
    {
        if moved.len() == 0 {
            return false;
        }
        self.swept.insert(id.to_owned(), moved);
        true
    }

    /// Forgets what was swept off a monitor.
    pub fn forget(&mut self, id: &str)
        requires
            old(self).wf(),
        ensures
            final(self).wf(),
            final(self).swept.seq() == removed(old(self).swept.seq(), id@),
    {
        self.swept.remove(id);
    }

    /// What was swept off a monitor.
    pub fn windows(&self, id: &str) -> (r: Option<&Vec<MovedWindow>>)
        ensures
            match r {
                Some(v) => got(self.swept.seq(), id@) == Some(*v),
                None => got(self.swept.seq(), id@) is None,
            },
    {
        self.swept.get(id)
    }
}

/// What a sweep moved off a monitor is what a restore of that monitor finds.
/// What came off any other monitor stays as it was, and so does everything
/// when nothing was moved.
pub proof fn law_a_sweep_can_be_undone(
    before: Seq<(Seq<char>, Vec<MovedWindow>)>,
    id: Seq<char>,
    moved: Vec<MovedWindow>,
    other: Seq<char>,
)
    requires
        in_order(before),
    ensures
        moved@.len() > 0 ==> got(swept_after(before, id, moved), id) == Some(moved),
        moved@.len() == 0 ==> swept_after(before, id, moved) == before,
        other != id ==> got(swept_after(before, id, moved), other) == got(before, other),
        other != id ==> got(removed(before, id), other) == got(before, other),
        got(removed(before, id), id) is None,
{
    law_what_is_kept_is_found(before, id, moved, other);
}

/// The line when a monitor is no part of the desktop.
pub fn nothing_on(label: &str) -> (r: String)
    ensures
        r@ == "`"@ + label@ + "` is not attached to this desktop, so nothing can be on it."@,
{
    cat3("`", label, "` is not attached to this desktop, so nothing can be on it.")
}

pub open spec fn titles_of(ws: Seq<MovedWindowView>) -> Seq<Seq<char>> {
    ws.map_values(|w: MovedWindowView| w.title)
}

pub open spec fn swept_lines(label: Seq<char>, report: SweepReportView) -> Seq<LineView> {
    if report.moved.len() == 0 && report.skipped.len() == 0 {
        said("No windows were on `"@ + label + "`."@)
    } else {
        said("Moved "@ + decimal(report.moved.len()) + " window(s) off `"@ + label + "`:"@)
            + bullet_lines(titles_of(report.moved)) + said(
            "\nPut them back with: desktop-switcher restore-windows"@,
        ) + if report.skipped.len() == 0 {
            nothing()
        } else {
            said("\nCould not move "@ + decimal(report.skipped.len()) + " window(s):"@)
                + bullet_lines(report.skipped)
        }
    }
}

fn titles(ws: &Vec<MovedWindow>) -> (r: Vec<String>)
    ensures
        texts(r@) == titles_of(ws.deep_view()),
{
    let ghost want = titles_of(ws.deep_view());
    let mut out: Vec<String> = Vec::new();
    let mut i: usize = 0;
    assert(texts(out@) =~= want.take(0));
    while i < ws.len()
        invariant
            i <= ws@.len(),
            want == titles_of(ws.deep_view()),
            texts(out@) == want.take(i as int),
        decreases ws@.len() - i,
    {
        assert(ws.deep_view()[i as int] == ws@[i as int].deep_view());
        let ghost had = texts(out@);
        out.push(ws[i].title.clone());
        assert(texts(out@) =~= had.push(want[i as int]));
        i += 1;
    }
    assert(want.take(want.len() as int) =~= want);
    out
}

/// What is said of a sweep.
pub fn swept(label: &str, report: &SweepReport) -> (r: Page)
    ensures
        r@ == swept_lines(label@, report.deep_view()),
{
    let ghost v = report.deep_view();
    let mut page = Page::new();
    assert(v.moved.len() == report.moved@.len());
    assert(v.skipped.len() == report.skipped@.len());
    if report.is_empty() {
        page.say(cat3("No windows were on `", label, "`."));
        assert(page@ =~= swept_lines(label@, v));
        return page;
    }
    page.say(
        cat5(
            "Moved ",
            dec(report.moved.len() as u64).as_str(),
            " window(s) off `",
            label,
            "`:",
        ),
    );
    let names = titles(&report.moved);
    page.bullets(&names);
    page.put("\nPut them back with: desktop-switcher restore-windows");
    if report.skipped.len() > 0 {
        page.say(
            cat3(
                "\nCould not move ",
                dec(report.skipped.len() as u64).as_str(),
                " window(s):",
            ),
        );
        page.bullets(&report.skipped);
    }
    assert(page@ =~= swept_lines(label@, v));
    page
}

// ---------------------------------------------------------------------------
// restore-windows
// ---------------------------------------------------------------------------

/// How putting windows back begins.
#[derive(Debug, PartialEq, Eq)]
pub enum RestoreStart {
    /// There is nothing to put back.
    Nothing(String),
    /// Put back what was swept off these, in order.
    From(Vec<String>),
}

pub enum RestoreStartView {
    Nothing(Seq<char>),
    From(Seq<Seq<char>>),
}

impl DeepView for RestoreStart {
    type V = RestoreStartView;

    open spec fn deep_view(&self) -> RestoreStartView {
        match self {
            RestoreStart::Nothing(s) => RestoreStartView::Nothing(s@),
            RestoreStart::From(keys) => RestoreStartView::From(texts(keys@)),
        }
    }
}

/// Which monitors' windows are put back: the named one's, or all of them.
pub open spec fn restore_start(
    state: Seq<(Seq<char>, Vec<MovedWindow>)>,
    wanted: Option<Seq<char>>,
) -> RestoreStartView {
    if state.len() == 0 {
        RestoreStartView::Nothing("Nothing has been swept, so there is nothing to put back."@)
    } else {
        match wanted {
            None => RestoreStartView::From(keys_in(state)),
            Some(id) => if got(state, id) is Some {
                RestoreStartView::From(seq![id])
            } else {
                RestoreStartView::Nothing("Nothing was swept off that monitor."@)
            },
        }
    }
}

/// Decides whose windows to put back. `wanted` is the id of a monitor that was
/// named.
pub fn begin_restore(state: &SweptState, wanted: Option<&str>) -> (r: RestoreStart)
    ensures
        r.deep_view() == restore_start(state.swept.seq(), opt_str(wanted)),
{
    if state.swept.is_empty() {
        return RestoreStart::Nothing(
            "Nothing has been swept, so there is nothing to put back.".to_owned(),
        );
    }
    match wanted {
        None => RestoreStart::From(state.swept.keys()),
        Some(id) => {
            if state.swept.contains_key(id) {
                let mut keys: Vec<String> = Vec::new();
                keys.push(id.to_owned());
                assert(texts(keys@) =~= seq![id@]);
                RestoreStart::From(keys)
            } else {
                RestoreStart::Nothing("Nothing was swept off that monitor.".to_owned())
            }
        },
    }
}

pub open spec fn restored_lines(report: RestoreReportView) -> Seq<LineView> {
    (if report.restored.len() == 0 {
        nothing()
    } else {
        said("Put "@ + decimal(report.restored.len()) + " window(s) back:"@) + bullet_lines(
            report.restored,
        )
    }) + (if report.missing.len() == 0 {
        nothing()
    } else {
        said("\nCould not find "@ + decimal(report.missing.len()) + " window(s):"@)
            + bullet_lines(report.missing) + said(
            "  (closed, renamed, or on another virtual desktop)"@,
        )
    })
}

/// What is said of the windows of one monitor, and whether any was put back.
pub fn restored(report: &RestoreReport) -> (r: (Page, bool))
    ensures
        r.0@ == restored_lines(report.deep_view()),
        r.1 == (report.deep_view().restored.len() > 0),
{
    let ghost v = report.deep_view();
    let mut page = Page::new();
    assert(v.restored.len() == report.restored@.len());
    assert(v.missing.len() == report.missing@.len());
    if report.restored.len() > 0 {
        page.say(cat3("Put ", dec(report.restored.len() as u64).as_str(), " window(s) back:"));
        page.bullets(&report.restored);
    }
    if report.missing.len() > 0 {
        page.say(
            cat3(
                "\nCould not find ",
                dec(report.missing.len() as u64).as_str(),
                " window(s):",
            ),
        );
        page.bullets(&report.missing);
        page.put("  (closed, renamed, or on another virtual desktop)");
    }
    assert(page@ =~= restored_lines(v));
    (page, report.restored.len() > 0)
}

/// What is said once everything has been tried. The code is 1 where nothing at
/// all could be put back.
pub fn end_restore(any: bool) -> (r: Told)
    ensures
        r.page@ == if any {
            nothing()
        } else {
            said("None of the swept windows could be found."@)
        },
        r.code == if any {
            0i32
        } else {
            1
        },
{
    let mut page = Page::new();
    if any {
        Told { page, code: 0 }
    } else {
        page.put("None of the swept windows could be found.");
        Told { page, code: 1 }
    }
}

// ---------------------------------------------------------------------------
// What choosing promises
// ---------------------------------------------------------------------------

/// A selector stands for a display: it is the display's id or its GDI name.
pub open spec fn stands_for(selector: Seq<char>, d: DesktopDisplayView) -> bool {
    d.matches_id(selector) || d.gdi_name == selector
}

/// A selector chooses the only display that it stands for; where it stands for
/// none or for more than one, nothing is chosen.
pub proof fn law_the_only_display_meant_is_chosen(
    manager: Seq<char>,
    displays: Seq<DesktopDisplayView>,
    selector: Seq<char>,
    i: int,
)
    requires
        0 <= i < displays.len(),
    ensures
        stands_for(selector, displays[i]) && (forall|j: int|
            0 <= j < displays.len() && j != i ==> !stands_for(selector, #[trigger] displays[j]))
            ==> display_choice(manager, displays, selector) == Ok::<DesktopDisplayView, Seq<char>>(
            displays[i],
        ),
        (forall|j: int|
            0 <= j < displays.len() ==> !stands_for(selector, #[trigger] displays[j]))
            ==> display_choice(manager, displays, selector) is Err,
        forall|j: int|
            0 <= j < displays.len() && j != i && stands_for(selector, displays[i]) && stands_for(
                selector,
                #[trigger] displays[j],
            ) ==> display_choice(manager, displays, selector) is Err,
{
    let p = meant_by(selector);
    assert forall|j: int| 0 <= j < displays.len() implies p(#[trigger] displays[j]) == stands_for(
        selector,
        displays[j],
    ) by {}
    if stands_for(selector, displays[i]) && (forall|j: int|
        0 <= j < displays.len() && j != i ==> !stands_for(selector, #[trigger] displays[j])) {
        assert forall|j: int| 0 <= j < displays.len() && j != i implies !p(
            #[trigger] displays[j],
        ) by {
            assert(!stands_for(selector, displays[j]));
        }
        lemma_filter_one(displays, p, i);
    }
    if forall|j: int|
        0 <= j < displays.len() ==> !stands_for(selector, #[trigger] displays[j]) {
        assert forall|j: int| 0 <= j < displays.len() implies !p(#[trigger] displays[j]) by {
            assert(!stands_for(selector, displays[j]));
        }
        lemma_filter_no_one(displays, p);
    }
    assert forall|j: int|
        0 <= j < displays.len() && j != i && stands_for(selector, displays[i]) && stands_for(
            selector,
            #[trigger] displays[j],
        ) implies display_choice(manager, displays, selector) is Err by {
        if i < j {
            lemma_filter_two(displays, p, i, j);
        } else {
            lemma_filter_two(displays, p, j, i);
        }
    }
}

/// A command on the desktop is for the monitor that was named, by the connection
/// that was recorded for it, or for what was typed where no monitor answers to
/// it; where none was named, for the only one there is.
pub proof fn law_a_command_is_for_the_monitor_that_was_named(
    config: ConfigView,
    monitor: Option<Seq<char>>,
)
    ensures
        target_choice(None, monitor) is Err,
        match (monitor, target_choice(Some(config), monitor)) {
            (Some(name), Ok((id, label))) => (exists|i: int|
                0 <= i < config.monitors.len() && is_asked_for(#[trigger] config.monitors[i], name)
                    && id == config.monitors[i].backend_id && label == config.monitors[i].label && (
                forall|j: int| 0 <= j < i ==> !is_asked_for(#[trigger] config.monitors[j], name)))
                || (id == name && label == name && forall|j: int|
                0 <= j < config.monitors.len() ==> !is_asked_for(
                    #[trigger] config.monitors[j],
                    name,
                )),
            (Some(_), Err(_)) => false,
            (None, Ok((id, label))) => config.monitors.len() == 1 && id
                == config.monitors[0].backend_id && label == config.monitors[0].label,
            (None, Err(_)) => config.monitors.len() != 1,
        },
{
    if let Some(name) = monitor {
        law_a_name_finds_the_first_that_answers(config, name);
    }
}

/// A release begins by detaching a display that is attached and not primary, by
/// handing the role on where it is primary, and does nothing where it is not
/// attached.
pub proof fn law_a_release_begins_by_what_the_display_is(
    display: DesktopDisplayView,
    all: Seq<DesktopDisplayView>,
    label: Seq<char>,
)
    ensures
        match release_start(display, all, label) {
            ReleaseStartView::Already(_) => !display.is_attached,
            ReleaseStartView::Detach => display.is_attached && !display.is_primary,
            ReleaseStartView::Promote { to, .. } => display.is_attached && display.is_primary
                && all.contains(to) && can_take_over(to, display),
            ReleaseStartView::Stuck(_) => display.is_attached && display.is_primary && forall|
                i: int,
            |
                0 <= i < all.len() ==> !can_take_over(#[trigger] all[i], display),
        },
{
    law_the_primary_role_goes_to_the_largest(all, display);
}

/// A display that comes back gets the layout it was released with: the first
/// that was kept under one of its ids; where none was kept, none is made up.
pub proof fn law_a_display_comes_back_in_its_own_layout(
    state: ReleasedStateView,
    display: DesktopDisplayView,
    id: Seq<char>,
    i: int,
)
    requires
        0 <= i < state.released.len(),
        display.matches_id(state.released[i].0),
        forall|j: int| 0 <= j < i ==> !display.matches_id((#[trigger] state.released[j]).0),
    ensures
        layout_for(state, display, id) == (state.released[i].0, state.released[i].1, true),
{
    let p = saved_of(display);
    assert(p(state.released[i]));
    assert forall|j: int| 0 <= j < i implies !p(#[trigger] state.released[j]) by {
        assert(!display.matches_id(state.released[j].0));
    }
    lemma_first_index_here(state.released, p, i);
}

/// Nothing is put back where nothing was swept; else what was swept off the
/// monitor that was named, or off every one.
pub proof fn law_a_restore_is_of_what_was_swept(
    state: Seq<(Seq<char>, Vec<MovedWindow>)>,
    wanted: Option<Seq<char>>,
)
    ensures
        match restore_start(state, wanted) {
            RestoreStartView::From(keys) => match wanted {
                Some(id) => keys == seq![id] && got(state, id) is Some,
                None => keys.len() == state.len() && state.len() > 0 && forall|i: int|
                    0 <= i < state.len() ==> #[trigger] keys[i] == state[i].0,
            },
            RestoreStartView::Nothing(_) => state.len() == 0 || (wanted matches Some(id) && got(
                state,
                id,
            ) is None),
        },
{
}

/// What a report of a sweep says is how many windows moved and which, and which
/// stayed: a line for each of them.
pub proof fn law_a_sweep_names_every_window(
    label: Seq<char>,
    report: SweepReportView,
)
    ensures
        report.moved.len() + report.skipped.len() == 0 ==> swept_lines(label, report).len() == 1,
        report.moved.len() + report.skipped.len() > 0 ==> swept_lines(label, report).len() >= 2
            + report.moved.len() + report.skipped.len(),
{
    lemma_bullets(titles_of(report.moved));
    lemma_bullets(report.skipped);
}

proof fn lemma_bullets(items: Seq<Seq<char>>)
    ensures
        bullet_lines(items).len() == items.len(),
    decreases items.len(),
{
    if items.len() > 0 {
        lemma_bullets(items.drop_last());
    }
}

/// A display of which no layout was saved comes back under its own id, in any
/// layout at all.
pub proof fn law_a_display_without_a_layout_takes_any(
    state: ReleasedStateView,
    display: DesktopDisplayView,
    id: Seq<char>,
)
    requires
        forall|j: int|
            0 <= j < state.released.len() ==> !display.matches_id((#[trigger] state.released[j]).0),
    ensures
        ({
            let (key, mode, known) = layout_for(state, display, id);
            &&& key == id
            &&& !known
            &&& mode.width == 0 && mode.height == 0
            &&& mode.pos_x == 0 && mode.pos_y == 0
            &&& mode.refresh_hz == 0 && mode.bits_per_pixel == 0
        }),
{
    lemma_first_index_none(state.released, saved_of(display));
}

/// Every window put back is named, and every one that could not be found.
pub proof fn law_a_restore_names_every_window(report: RestoreReportView, i: int)
    ensures
        0 <= i < report.restored.len() ==> restored_lines(report).contains(
            LineView::Out("  - "@ + report.restored[i]),
        ),
        0 <= i < report.missing.len() ==> restored_lines(report).contains(
            LineView::Out("  - "@ + report.missing[i]),
        ),
        report.restored.len() == 0 && report.missing.len() == 0 ==> restored_lines(report).len()
            == 0,
{
    let all = restored_lines(report);
    let n = report.restored.len();
    if 0 <= i < n {
        law_every_item_has_its_line(Seq::empty(), report.restored, i);
        assert(all[1 + i] == bullet_lines(report.restored)[i]);
    }
    if 0 <= i < report.missing.len() {
        law_every_item_has_its_line(Seq::empty(), report.missing, i);
        if n > 0 {
            law_every_item_has_its_line(Seq::empty(), report.restored, 0);
            assert(all[2 + n + i] == bullet_lines(report.missing)[i]);
        } else {
            assert(all[1 + i] == bullet_lines(report.missing)[i]);
        }
    }
}

} // verus!

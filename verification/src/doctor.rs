//! Read-only checks of the backend and the configuration, told in words.

use vstd::prelude::*;

use crate::backend::{
    monitors_result, severity_text, BackendError, BackendErrorView, BackendHealth,
    BackendHealthView, HealthFindingView, Severity,
};
use crate::config::{Config, ConfigView, MonitorConfigView};
use crate::desktop::{DesktopDisplay, DesktopDisplayView};
use crate::digits::{dec, decimal};
use crate::inventory::{
    bind, binding_set, duplicate_serials, law_every_monitor_is_accounted_for,
    law_repeated_serials_are_those_of_two_displays, problems_of, repeated_serials, resolution, Binding, BindingProblem, BindingProblemView, BindingView,
};
use crate::lookup::{whereabouts, whereabouts_of, Whereabouts};
use crate::page::{
    field_line, heading_lines, nothing, said, textwrap, wrapped, LineView, Page,
};
use crate::text::{cat2, cat3, cat4, join, joined, opt_text, texts};
use crate::types::{DetectedMonitor, DetectedMonitorView};

verus! {

/// What a command said, and the code it exits with.
#[derive(Debug, PartialEq, Eq)]
pub struct Told {
    pub page: Page,
    pub code: i32,
}

// ---------------------------------------------------------------------------
// The backend
// ---------------------------------------------------------------------------

/// Lines behind an indent.
pub open spec fn indented(indent: Seq<char>, ls: Seq<Seq<char>>) -> Seq<LineView> {
    ls.map_values(|l: Seq<char>| LineView::Out(indent + l))
}

pub fn indent(page: &mut Page, by: &str, ls: &Vec<String>, from: usize)
    requires
        from <= ls@.len(),
    ensures
        final(page)@ == old(page)@ + indented(by@, texts(ls@).skip(from as int)),
{
    let ghost all = texts(ls@).skip(from as int);
    let mut i: usize = from;
    assert(page@ =~= old(page)@ + indented(by@, all.take(0)));
    while i < ls.len()
        invariant
            from <= i <= ls@.len(),
            all == texts(ls@).skip(from as int),
            page@ == old(page)@ + indented(by@, all.take(i - from)),
        decreases ls@.len() - i,
    {
        let ghost had = page@;
        page.say(cat2(by, ls[i].as_str()));
        assert(all[i - from] == ls@[i as int]@);
        assert(indented(by@, all.take(i - from + 1)) =~= indented(by@, all.take(i - from)) + said(
            by@ + ls@[i as int]@,
        ));
        assert(page@ =~= old(page)@ + indented(by@, all.take(i - from + 1)));
        i += 1;
    }
    assert(all.take(all.len() as int) =~= all);
}

pub open spec fn finding_lines(f: HealthFindingView) -> Seq<LineView> {
    said("  ["@ + severity_text(f.severity) + "] "@ + f.message) + match f.remedy {
        Some(remedy) => indented("         "@, wrapped(remedy, 72)),
        None => nothing(),
    }
}

pub open spec fn findings_lines(fs: Seq<HealthFindingView>) -> Seq<LineView>
    decreases fs.len(),
{
    if fs.len() == 0 {
        nothing()
    } else {
        findings_lines(fs.drop_last()) + finding_lines(fs.last())
    }
}

/// How many findings stop the backend from being usable.
pub open spec fn blockers_in(fs: Seq<HealthFindingView>) -> int
    decreases fs.len(),
{
    if fs.len() == 0 {
        0
    } else {
        blockers_in(fs.drop_last()) + if fs.last().severity is Blocker {
            1int
        } else {
            0
        }
    }
}

pub open spec fn opt_field(label: Seq<char>, value: Option<Seq<char>>) -> Seq<LineView> {
    match value {
        Some(v) => field_line(label, v),
        None => nothing(),
    }
}

pub fn field_if(page: &mut Page, label: &str, value: &Option<String>)
    ensures
        final(page)@ == old(page)@ + opt_field(label@, opt_text(*value)),
{
    match value {
        Some(v) => {
            page.field(label, v.as_str());
        },
        None => {
            assert(page@ =~= old(page)@ + nothing());
        },
    }
}

/// What is said of the backend. One built on an operating system's own
/// interface has no tool to report.
pub open spec fn backend_lines(health: BackendHealthView) -> Seq<LineView> {
    heading_lines("Backend"@) + field_line("backend"@, health.backend) + opt_field(
        "tool path"@,
        health.tool_path,
    ) + opt_field("tool version"@, health.tool_version) + said(""@) + findings_lines(
        health.findings,
    )
}

fn tell_backend(page: &mut Page, health: &BackendHealth) -> (blockers: u32)
    requires
        health.findings@.len() <= i32::MAX,
    ensures
        final(page)@ == old(page)@ + backend_lines(health.deep_view()),
        blockers == blockers_in(health.deep_view().findings),
        blockers <= health.findings@.len(),
{
    let ghost h = health.deep_view();
    page.heading("Backend");
    page.field("backend", health.backend.as_str());
    field_if(page, "tool path", &health.tool_path);
    field_if(page, "tool version", &health.tool_version);
    page.put("");
    let ghost head = page@;
    let mut blockers: u32 = 0;
    let mut i: usize = 0;
    assert(h.findings.take(0) =~= Seq::<HealthFindingView>::empty());
    assert(page@ =~= head + findings_lines(h.findings.take(0)));
    while i < health.findings.len()
        invariant
            i <= health.findings@.len() <= i32::MAX,
            h == health.deep_view(),
            page@ == head + findings_lines(h.findings.take(i as int)),
            blockers == blockers_in(h.findings.take(i as int)),
            blockers <= i,
        decreases health.findings@.len() - i,
    {
        let f = &health.findings[i];
        let ghost next = h.findings.take(i as int + 1);
        assert(next.drop_last() =~= h.findings.take(i as int));
        assert(next.last() == f.deep_view());
        let ghost had = page@;
        page.say(cat4("  [", f.severity.to_string().as_str(), "] ", f.message.as_str()));
        if let Some(remedy) = &f.remedy {
            let ls = textwrap(remedy.as_str(), 72);
            assert(texts(ls@).skip(0) =~= texts(ls@));
            indent(page, "         ", &ls, 0);
        }
        assert(page@ =~= had + finding_lines(f.deep_view()));
        assert(page@ =~= head + findings_lines(next));
        if let Severity::Blocker = f.severity {
            blockers += 1;
        }
        i += 1;
    }
    assert(h.findings.take(h.findings.len() as int) =~= h.findings);
    assert(page@ =~= old(page)@ + backend_lines(h));
    blockers
}

// ---------------------------------------------------------------------------
// The monitors
// ---------------------------------------------------------------------------

pub open spec fn bound_lines(bs: Seq<BindingView>) -> Seq<LineView> {
    bs.map_values(
        |b: BindingView|
            LineView::Out(
                "  [ok] "@ + b.monitor.key + " -> "@ + b.detected.identity.description(),
            ),
    )
}

pub open spec fn extra_lines(ds: Seq<DetectedMonitorView>) -> Seq<LineView> {
    ds.map_values(
        |d: DetectedMonitorView|
            LineView::Out(
                "  [info] "@ + d.identity.description() + " is attached but not configured"@,
            ),
    )
}

/// Where the monitor of a problem is. Only one the backend did not find can be
/// anywhere else.
pub open spec fn place_of(
    problem: BindingProblemView,
    config: ConfigView,
    displays: Seq<DesktopDisplayView>,
) -> Whereabouts {
    if problem is NotFound {
        match config.monitor(problem.logical_id()) {
            Some(m) => whereabouts_of(displays, m.backend_id),
            None => Whereabouts::Absent,
        }
    } else {
        Whereabouts::Absent
    }
}

/// A problem in words. A backend may not list a monitor it cannot talk to, so
/// "unplugged" and "here but unreachable" can arrive identically; the desktop
/// tells them apart, and the difference decides what to do next.
pub open spec fn problem_words(
    problem: BindingProblemView,
    config: ConfigView,
    displays: Seq<DesktopDisplayView>,
) -> Seq<char> {
    match place_of(problem, config, displays) {
        Whereabouts::Attached => match problem.as_present_but_silent() {
            Some(silent) => silent.message(),
            None => problem.message(),
        },
        Whereabouts::Detached => problem.message()
            + " It is plugged in but turned off in this computer's display settings; turn it on in Settings > System > Display."@,
        Whereabouts::Absent => problem.message(),
    }
}

pub open spec fn problem_lines(text: Seq<char>) -> Seq<LineView> {
    let ls = wrapped(text, 66);
    if ls.len() == 0 {
        said("  [BLOCKER] "@)
    } else {
        said("  [BLOCKER] "@ + ls[0]) + indented("            "@, ls.skip(1))
    }
}

pub open spec fn problems_lines(
    ps: Seq<BindingProblemView>,
    config: ConfigView,
    displays: Seq<DesktopDisplayView>,
) -> Seq<LineView>
    decreases ps.len(),
{
    if ps.len() == 0 {
        nothing()
    } else {
        problems_lines(ps.drop_last(), config, displays) + problem_lines(
            problem_words(ps.last(), config, displays),
        )
    }
}

fn words_for(problem: &BindingProblem, config: &Config, displays: &[DesktopDisplay]) -> (r: String)
    ensures
        r@ == problem_words(problem.deep_view(), config.deep_view(), displays.deep_view()),
{
    let place = if problem.is_not_found() {
        match config.monitor(problem.monitor()) {
            Some(m) => whereabouts(displays, m.backend_id.as_str()),
            None => Whereabouts::Absent,
        }
    } else {
        Whereabouts::Absent
    };
    match place {
        Whereabouts::Attached => match problem.as_present_but_silent() {
            Some(silent) => silent.to_string(),
            None => problem.to_string(),
        },
        Whereabouts::Detached => cat2(
            problem.to_string().as_str(),
            " It is plugged in but turned off in this computer's display settings; turn it on in Settings > System > Display.",
        ),
        Whereabouts::Absent => problem.to_string(),
    }
}

fn tell_problem(page: &mut Page, text: &str)
    ensures
        final(page)@ == old(page)@ + problem_lines(text@),
{
    let ls = textwrap(text, 66);
    assert(texts(ls@).len() == ls@.len());
    if ls.len() == 0 {
        page.put("  [BLOCKER] ");
    } else {
        assert(texts(ls@)[0] == ls@[0]@);
        page.say(cat2("  [BLOCKER] ", ls[0].as_str()));
        indent(page, "            ", &ls, 1);
        assert(page@ =~= old(page)@ + problem_lines(text@));
    }
}

pub open spec fn duplicate_lines(serials: Seq<Seq<char>>) -> Seq<LineView> {
    if serials.len() == 0 {
        nothing()
    } else {
        said(
            "\n  [BLOCKER] Serial(s) "@ + joined(serials, ", "@)
                + " appear on more than one display; every binding that relies on them is ambiguous."@,
        )
    }
}

pub open spec fn one_if(b: bool) -> int {
    if b {
        1
    } else {
        0
    }
}

/// What is said of the displays that were found.
pub open spec fn found_lines(
    config: ConfigView,
    detected: Seq<DetectedMonitorView>,
    displays: Seq<DesktopDisplayView>,
) -> Seq<LineView> {
    let set = binding_set(config.monitors, detected);
    duplicate_lines(repeated_serials(detected)) + said(""@) + bound_lines(set.bound)
        + problems_lines(set.problems, config, displays) + extra_lines(set.unclaimed)
}

pub open spec fn found_blockers(config: ConfigView, detected: Seq<DetectedMonitorView>) -> int {
    one_if(repeated_serials(detected).len() > 0) + problems_of(config.monitors, detected).len()
}

fn tell_found(
    page: &mut Page,
    config: &Config,
    detected: &Vec<DetectedMonitor>,
    displays: &[DesktopDisplay],
) -> (blockers: u32)
    requires
        config.monitors@.len() < i32::MAX,
    ensures
        final(page)@ == old(page)@ + found_lines(
            config.deep_view(),
            detected.deep_view(),
            displays.deep_view(),
        ),
        blockers == found_blockers(config.deep_view(), detected.deep_view()),
        blockers <= config.monitors@.len() + 1,
{
    let ghost c = config.deep_view();
    let ghost ds = detected.deep_view();
    let ghost at = displays.deep_view();
    let mut blockers: u32 = 0;
    let slice = detected.as_slice();
    assert(slice.deep_view() =~= ds);
    let duplicates = duplicate_serials(slice);
    assert(texts(duplicates@).len() == duplicates@.len());
    if duplicates.len() > 0 {
        page.say(
            cat3(
                "\n  [BLOCKER] Serial(s) ",
                join(duplicates.as_slice(), ", ").as_str(),
                " appear on more than one display; every binding that relies on them is ambiguous.",
            ),
        );
        blockers += 1;
    }
    let ghost p0 = old(page)@ + duplicate_lines(repeated_serials(ds));
    assert(page@ =~= p0);
    let bindings = bind(config, slice);
    let ghost set = binding_set(c.monitors, ds);
    proof {
        law_every_monitor_is_accounted_for(c.monitors, ds);
    }
    page.put("");
    let ghost p1 = page@;
    let mut i: usize = 0;
    assert(page@ =~= p1 + bound_lines(set.bound.take(0)));
    while i < bindings.bound.len()
        invariant
            i <= bindings.bound@.len(),
            bindings.deep_view() == set,
            page@ == p1 + bound_lines(set.bound.take(i as int)),
        decreases bindings.bound@.len() - i,
    {
        let b: &Binding = &bindings.bound[i];
        assert(set.bound[i as int] == b.deep_view());
        page.say(
            cat4(
                "  [ok] ",
                b.key(),
                " -> ",
                b.detected.identity.describe().as_str(),
            ),
        );
        assert(page@ =~= p1 + bound_lines(set.bound.take(i as int + 1)));
        i += 1;
    }
    assert(set.bound.take(set.bound.len() as int) =~= set.bound);
    let ghost p2 = page@;
    let mut i: usize = 0;
    assert(set.problems.take(0) =~= Seq::<BindingProblemView>::empty());
    assert(page@ =~= p2 + problems_lines(set.problems.take(0), c, at));
    while i < bindings.problems.len()
        invariant
            i <= bindings.problems@.len() < i32::MAX,
            bindings.deep_view() == set,
            c == config.deep_view(),
            at == displays.deep_view(),
            blockers == i + one_if(duplicates@.len() > 0),
            page@ == p2 + problems_lines(set.problems.take(i as int), c, at),
        decreases bindings.problems@.len() - i,
    {
        let p = &bindings.problems[i];
        let ghost next = set.problems.take(i as int + 1);
        assert(next.drop_last() =~= set.problems.take(i as int));
        assert(next.last() == p.deep_view());
        let text = words_for(p, config, displays);
        tell_problem(page, text.as_str());
        assert(page@ =~= p2 + problems_lines(next, c, at));
        blockers += 1;
        i += 1;
    }
    assert(set.problems.take(set.problems.len() as int) =~= set.problems);
    let ghost p3 = page@;
    let mut i: usize = 0;
    assert(page@ =~= p3 + extra_lines(set.unclaimed.take(0)));
    while i < bindings.unclaimed.len()
        invariant
            i <= bindings.unclaimed@.len(),
            bindings.deep_view() == set,
            page@ == p3 + extra_lines(set.unclaimed.take(i as int)),
        decreases bindings.unclaimed@.len() - i,
    {
        assert(set.unclaimed[i as int] == bindings.unclaimed@[i as int].deep_view());
        page.say(
            cat3(
                "  [info] ",
                bindings.unclaimed[i].identity.describe().as_str(),
                " is attached but not configured",
            ),
        );
        assert(page@ =~= p3 + extra_lines(set.unclaimed.take(i as int + 1)));
        i += 1;
    }
    assert(set.unclaimed.take(set.unclaimed.len() as int) =~= set.unclaimed);
    assert(page@ =~= old(page)@ + found_lines(c, ds, at));
    blockers
}

// ---------------------------------------------------------------------------
// The configuration
// ---------------------------------------------------------------------------

/// A configuration with what was found on this computer.
pub struct Setup<'a> {
    pub config: &'a Config,
    /// What the backend answered when asked for the displays.
    pub detected: Result<Vec<DetectedMonitor>, BackendError>,
    /// The displays this computer's desktop knows.
    pub displays: Vec<DesktopDisplay>,
}

pub struct SetupView {
    pub config: ConfigView,
    pub detected: Result<Seq<DetectedMonitorView>, BackendErrorView>,
    pub displays: Seq<DesktopDisplayView>,
}

impl<'a> DeepView for Setup<'a> {
    type V = SetupView;

    open spec fn deep_view(&self) -> SetupView {
        SetupView {
            config: self.config.deep_view(),
            detected: monitors_result(self.detected),
            displays: self.displays.deep_view(),
        }
    }
}

pub open spec fn opt_setup(o: Option<Setup>) -> Option<SetupView> {
    match o {
        Some(s) => Some(s.deep_view()),
        None => None,
    }
}

pub open spec fn setup_lines(setup: Option<SetupView>) -> Seq<LineView> {
    match setup {
        None => said("\n  [BLOCKER] No configuration yet."@) + said(
            "         Run `desktop-switcher configure`."@,
        ),
        Some(s) => field_line("host"@, s.config.host) + field_line(
            "monitors"@,
            decimal(s.config.monitors.len()),
        ) + field_line("actions"@, decimal(s.config.actions.len())) + match s.detected {
            Err(e) => said("\n  [BLOCKER] Could not enumerate displays: "@ + e.message()),
            Ok(ds) => found_lines(s.config, ds, s.displays),
        },
    }
}

pub open spec fn setup_blockers(setup: Option<SetupView>) -> int {
    match setup {
        None => 1,
        Some(s) => match s.detected {
            Err(_) => 1,
            Ok(ds) => found_blockers(s.config, ds),
        },
    }
}

fn tell_setup(page: &mut Page, setup: &Option<Setup>) -> (blockers: u32)
    requires
        setup matches Some(s) ==> s.config.monitors@.len() < i32::MAX,
    ensures
        final(page)@ == old(page)@ + setup_lines(opt_setup(*setup)),
        blockers == setup_blockers(opt_setup(*setup)),
        blockers <= i32::MAX,
{
    match setup {
        None => {
            page.put("\n  [BLOCKER] No configuration yet.");
            page.put("         Run `desktop-switcher configure`.");
            assert(page@ =~= old(page)@ + setup_lines(None));
            1
        },
        Some(s) => {
            page.field("host", s.config.host.as_str());
            page.field("monitors", dec(s.config.monitors.len() as u64).as_str());
            page.field("actions", dec(s.config.actions.len() as u64).as_str());
            let ghost had = page@;
            match &s.detected {
                Err(e) => {
                    page.say(
                        cat2(
                            "\n  [BLOCKER] Could not enumerate displays: ",
                            e.to_string().as_str(),
                        ),
                    );
                    assert(page@ =~= old(page)@ + setup_lines(opt_setup(*setup)));
                    1
                },
                Ok(detected) => {
                    let displays = s.displays.as_slice();
                    assert(displays.deep_view() =~= s.displays.deep_view());
                    let n = tell_found(page, s.config, detected, displays);
                    assert(page@ =~= old(page)@ + setup_lines(opt_setup(*setup)));
                    n
                },
            }
        },
    }
}

// ---------------------------------------------------------------------------
// Everything
// ---------------------------------------------------------------------------

/// How many things stand in the way.
pub open spec fn all_blockers(health: BackendHealthView, setup: Option<SetupView>) -> int {
    blockers_in(health.findings) + setup_blockers(setup)
}

/// The whole report.
pub open spec fn doctor_lines(
    health: BackendHealthView,
    config_path: Seq<char>,
    setup: Option<SetupView>,
    log_path: Seq<char>,
) -> Seq<LineView> {
    let n = all_blockers(health, setup);
    backend_lines(health) + heading_lines("Configuration"@) + field_line("path"@, config_path)
        + setup_lines(setup) + heading_lines("Summary"@) + said(
        if n == 0 {
            "  No blockers."@
        } else {
            "  "@ + decimal(n as nat) + " blocker(s)."@
        },
    ) + said("\n  Event log: "@ + log_path)
}

/// Checks the backend, the configuration and the monitors, and says what it
/// found. The code is 0 where nothing stands in the way, and 2 where something
/// does.
pub fn doctor(
    health: &BackendHealth,
    config_path: &str,
    setup: &Option<Setup>,
    log_path: &str,
) -> (r: Told)
    requires
        health.findings@.len() <= i32::MAX,
        setup matches Some(s) ==> s.config.monitors@.len() < i32::MAX,
    ensures
        r.page@ == doctor_lines(
            health.deep_view(),
            config_path@,
            opt_setup(*setup),
            log_path@,
        ),
        r.code == if all_blockers(health.deep_view(), opt_setup(*setup)) == 0 {
            0i32
        } else {
            2
        },
{
    let ghost h = health.deep_view();
    let ghost s = opt_setup(*setup);
    let mut page = Page::new();
    let first = tell_backend(&mut page, health);
    assert(page@ =~= backend_lines(h));
    page.heading("Configuration");
    page.field("path", config_path);
    let second = tell_setup(&mut page, setup);
    let blockers: u32 = first + second;
    page.heading("Summary");
    if blockers == 0 {
        page.put("  No blockers.");
    } else {
        page.say(cat3("  ", dec(blockers as u64).as_str(), " blocker(s)."));
    }
    page.say(cat2("\n  Event log: ", log_path));
    let code: i32 = if blockers == 0 {
        0
    } else {
        2
    };
    Told { page, code }
}

/// Nothing is in the way exactly where the backend found no blocker, there is a
/// configuration, the displays could be listed, every configured monitor is
/// bound and no two displays share a serial.
pub proof fn law_nothing_is_in_the_way_when_all_is_bound(
    health: BackendHealthView,
    setup: Option<SetupView>,
)
    ensures
        all_blockers(health, setup) >= 0,
        all_blockers(health, setup) == 0 <==> {
            &&& forall|i: int|
                0 <= i < health.findings.len() ==> (#[trigger] health.findings[i]).severity !is Blocker
            &&& setup matches Some(s) && (s.detected matches Ok(ds) && {
                &&& forall|i: int|
                    0 <= i < s.config.monitors.len() ==> resolution(
                        #[trigger] s.config.monitors[i],
                        ds,
                    ) is Ok
                &&& forall|i: int, j: int|
                    0 <= i < j < ds.len() && (#[trigger] ds[i]).identity.serial is Some
                        ==> ds[i].identity.serial != (#[trigger] ds[j]).identity.serial
            })
        },
{
    lemma_blockers(health.findings);
    if let Some(s) = setup {
        if let Ok(ds) = s.detected {
            let ms = s.config.monitors;
            law_every_monitor_is_accounted_for(ms, ds);
            lemma_no_problems(ms, ds);
            let told = repeated_serials(ds);
            if told.len() > 0 {
                assert(told.contains(told[0]));
                law_repeated_serials_are_those_of_two_displays(ds, told[0]);
            }
            assert forall|i: int, j: int|
                0 <= i < j < ds.len() && (#[trigger] ds[i]).identity.serial is Some && told.len()
                    == 0 implies ds[i].identity.serial != (#[trigger] ds[j]).identity.serial by {
                law_repeated_serials_are_those_of_two_displays(ds, ds[i].identity.serial->0);
            }
        }
    }
}

proof fn lemma_no_problems(ms: Seq<MonitorConfigView>, ds: Seq<DetectedMonitorView>)
    ensures
        problems_of(ms, ds).len() == 0 <==> forall|i: int|
            0 <= i < ms.len() ==> resolution(#[trigger] ms[i], ds) is Ok,
    decreases ms.len(),
{
    if ms.len() > 0 {
        let front = ms.drop_last();
        lemma_no_problems(front, ds);
        assert forall|i: int| 0 <= i < front.len() implies #[trigger] front[i] == ms[i] by {}
        if problems_of(ms, ds).len() == 0 {
            assert forall|i: int| 0 <= i < ms.len() implies resolution(#[trigger] ms[i], ds)
                is Ok by {
                if i < front.len() {
                    assert(resolution(front[i], ds) is Ok);
                }
            }
        }
        if forall|i: int| 0 <= i < ms.len() ==> resolution(#[trigger] ms[i], ds) is Ok {
            assert forall|i: int| 0 <= i < front.len() implies resolution(#[trigger] front[i], ds)
                is Ok by {
                assert(resolution(ms[i], ds) is Ok);
            }
            assert(resolution(ms[ms.len() - 1], ds) is Ok);
        }
    }
}

proof fn lemma_blockers(fs: Seq<HealthFindingView>)
    ensures
        blockers_in(fs) >= 0,
        blockers_in(fs) == 0 <==> forall|i: int|
            0 <= i < fs.len() ==> (#[trigger] fs[i]).severity !is Blocker,
    decreases fs.len(),
{
    if fs.len() > 0 {
        let front = fs.drop_last();
        lemma_blockers(front);
        assert forall|i: int| 0 <= i < front.len() implies #[trigger] front[i] == fs[i] by {}
        if blockers_in(fs) == 0 {
            assert forall|i: int| 0 <= i < fs.len() implies (
            #[trigger] fs[i]).severity !is Blocker by {
                if i < front.len() {
                    assert(front[i].severity !is Blocker);
                }
            }
        }
        if forall|i: int| 0 <= i < fs.len() ==> (#[trigger] fs[i]).severity !is Blocker {
            assert forall|i: int| 0 <= i < front.len() implies (
            #[trigger] front[i]).severity !is Blocker by {
                assert(fs[i].severity !is Blocker);
            }
            assert(fs[fs.len() - 1].severity !is Blocker);
        }
    }
}

/// Every monitor that is not bound counts as a blocker, and displays with one
/// serial count as one more; nothing else that was detected counts.
pub proof fn law_each_blocker_is_counted(config: ConfigView, detected: Seq<DetectedMonitorView>)
    ensures
        repeated_serials(detected).len() == 0 ==> found_blockers(config, detected) == problems_of(
            config.monitors,
            detected,
        ).len(),
        repeated_serials(detected).len() > 0 ==> found_blockers(config, detected) == problems_of(
            config.monitors,
            detected,
        ).len() + 1,
        setup_blockers(None) == 1,
        forall|s: SetupView|
            (#[trigger] s.detected) is Err ==> setup_blockers(Some(s)) == 1,
        forall|s: SetupView|
            (#[trigger] s.detected) == Ok::<
                Seq<DetectedMonitorView>,
                BackendErrorView,
            >(detected)
                && s.config == config ==> setup_blockers(Some(s)) == found_blockers(
                config,
                detected,
            ),
{
}

} // verus!

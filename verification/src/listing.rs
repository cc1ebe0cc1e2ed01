//! The main view: every monitor, its inputs, and which one it is showing.

use vstd::prelude::*;

use crate::config::{Config, ConfigView, MonitorConfig, MonitorConfigView, MonitorInput, MonitorInputView};
use crate::desktop::{DesktopDisplay, DesktopDisplayView};
use crate::doctor::Told;
use crate::inventory::{duplicate_serials, repeated_serials};
use crate::lookup::{
    configured_for, find_configured, identity_views, inputs_known, known_inputs, opt_capabilities,
    opt_monitor, shell_quote, typed, unanswered, unanswered_by, config_views, whereabouts,
    whereabouts_of, Whereabouts,
};
use crate::page::{
    field_line, heading_lines, labelled_lines, more_line, nothing, said, textwrap, warning_line,
    wrapped, LineView, Page,
};
use crate::seqs::lemma_filter_members;
use crate::switch::opt_reading;
use crate::text::{cat3, cat4, has_text, join, joined, lemma_has_first_and_third, texts};
use crate::types::{
    code_text, DetectedMonitor, DetectedMonitorView, InputCapabilities, InputCapabilitiesView,
    InputCode, InputReading, InputReadingView, MonitorIdentity, MonitorIdentityView,
};

verus! {

// ---------------------------------------------------------------------------
// Monitors that answered
// ---------------------------------------------------------------------------

/// A display with what it answered.
pub struct Seen {
    pub monitor: DetectedMonitor,
    /// The input it reports, unless asking failed.
    pub reading: Option<InputReading>,
    /// The inputs it offers, where it was asked and answered.
    pub capabilities: Option<InputCapabilities>,
}

pub struct SeenView {
    pub monitor: DetectedMonitorView,
    pub reading: Option<InputReadingView>,
    pub capabilities: Option<InputCapabilitiesView>,
}

impl DeepView for Seen {
    type V = SeenView;

    open spec fn deep_view(&self) -> SeenView {
        SeenView {
            monitor: self.monitor.deep_view(),
            reading: opt_reading(self.reading),
            capabilities: opt_capabilities(self.capabilities),
        }
    }
}

pub open spec fn now_showing(reading: Option<InputReadingView>) -> Option<InputCode> {
    match reading {
        Some(r) => r.value(),
        None => None,
    }
}

/// An input, marked where it is the one that shows.
pub open spec fn input_text(input: MonitorInputView, now: Option<InputCode>) -> Seq<char> {
    code_text(input.input_code) + "  "@ + input.display_name() + if now == Some(
        input.input_code,
    ) {
        "  <- now"@
    } else {
        ""@
    }
}

pub open spec fn input_texts(inputs: Seq<MonitorInputView>, now: Option<InputCode>) -> Seq<
    Seq<char>,
> {
    inputs.map_values(|i: MonitorInputView| input_text(i, now))
}

pub open spec fn config_of(config: Option<ConfigView>) -> Seq<MonitorConfigView> {
    match config {
        Some(c) => c.monitors,
        None => Seq::empty(),
    }
}

/// What is said of a monitor that answered.
pub open spec fn seen_lines(seen: SeenView, configured: Option<MonitorConfigView>) -> Seq<
    LineView,
> {
    let inputs = inputs_known(configured, seen.capabilities);
    said(""@) + said(
        match configured {
            Some(m) => m.label,
            None => seen.monitor.identity.description(),
        },
    ) + match configured {
        Some(m) => field_line("name it by"@, m.key),
        None => field_line(
            "not configured"@,
            "run `configure` to name it and list its inputs"@,
        ),
    } + field_line("connection"@, seen.monitor.identity.backend_id) + field_line(
        "current input"@,
        match seen.reading {
            Some(r) => r.text(),
            None => "could not be read"@,
        },
    ) + (if inputs.len() == 0 {
        field_line("inputs"@, "none reported"@)
    } else {
        labelled_lines("inputs"@, input_texts(inputs, now_showing(seen.reading)))
    }) + match configured {
        Some(m) => more_line("set with: desktop-switcher set "@ + typed(m.key) + " 0xNN"@),
        None => nothing(),
    }
}

fn texts_of_inputs(inputs: &Vec<MonitorInput>, now: Option<InputCode>) -> (r: Vec<String>)
    ensures
        texts(r@) == input_texts(inputs.deep_view(), now),
{
    let ghost want = input_texts(inputs.deep_view(), now);
    let mut out: Vec<String> = Vec::new();
    let mut i: usize = 0;
    assert(texts(out@) =~= want.take(0));
    while i < inputs.len()
        invariant
            i <= inputs@.len(),
            want == input_texts(inputs.deep_view(), now),
            texts(out@) == want.take(i as int),
        decreases inputs@.len() - i,
    {
        let input = &inputs[i];
        assert(inputs.deep_view()[i as int] == input.deep_view());
        let marker = match now {
            Some(c) => {
                if c.get() == input.input_code.get() {
                    "  <- now"
                } else {
                    ""
                }
            },
            None => "",
        };
        let line = cat4(
            input.input_code.to_string().as_str(),
            "  ",
            input.display_name().as_str(),
            marker,
        );
        assert(line@ == want[i as int]);
        let ghost had = texts(out@);
        out.push(line);
        assert(texts(out@) =~= had.push(want[i as int]));
        i += 1;
    }
    assert(want.take(want.len() as int) =~= want);
    out
}

fn tell_seen(page: &mut Page, seen: &Seen, configured: Option<&MonitorConfig>)
    ensures
        final(page)@ == old(page)@ + seen_lines(seen.deep_view(), opt_monitor(configured)),
{
    let identity = &seen.monitor.identity;
    page.put("");
    match configured {
        Some(m) => {
            page.put(m.label.as_str());
            page.field("name it by", m.key.as_str());
        },
        None => {
            page.say(identity.describe());
            page.field("not configured", "run `configure` to name it and list its inputs");
        },
    }
    page.field("connection", identity.backend_id.as_str());
    let mut now: Option<InputCode> = None;
    match &seen.reading {
        Some(r) => {
            now = r.value();
            page.field("current input", r.to_string().as_str());
        },
        None => {
            page.field("current input", "could not be read");
        },
    }
    let inputs = known_inputs(configured, &seen.capabilities);
    assert(inputs.deep_view().len() == inputs@.len());
    if inputs.len() == 0 {
        page.field("inputs", "none reported");
    } else {
        let lines = texts_of_inputs(&inputs, now);
        page.labelled("inputs", &lines);
    }
    let ghost had = page@;
    if let Some(m) = configured {
        page.field_cont(
            cat3(
                "set with: desktop-switcher set ",
                shell_quote(m.key.as_str()).as_str(),
                " 0xNN",
            ).as_str(),
        );
    }
    assert(page@ =~= old(page)@ + seen_lines(seen.deep_view(), opt_monitor(configured)));
}

// ---------------------------------------------------------------------------
// Monitors that did not
// ---------------------------------------------------------------------------

pub open spec fn silence(place: Whereabouts) -> Seq<char> {
    match place {
        Whereabouts::Attached => "not answering"@,
        Whereabouts::Detached => "turned off in display settings"@,
        Whereabouts::Absent => "not present"@,
    }
}

pub open spec fn silence_reason(place: Whereabouts) -> Seq<char> {
    match place {
        Whereabouts::Attached => "This computer is drawing on it, so the cable is fine, but it did not answer. A monitor asleep on an input with no picture ignores every command. Wake the computer on that input, or use the monitor's own buttons."@,
        Whereabouts::Detached => "It is plugged in, but turned off in this computer's display settings, so there is no way to talk to it. Turn it on in Settings > System > Display."@,
        Whereabouts::Absent => "Nothing on this computer matches it right now, so no command here can reach it."@,
    }
}

fn told_silence(place: Whereabouts) -> (r: (&'static str, &'static str))
    ensures
        r.0@ == silence(place),
        r.1@ == silence_reason(place),
{
    match place {
        Whereabouts::Attached => (
            "not answering",
            "This computer is drawing on it, so the cable is fine, but it did not answer. A monitor asleep on an input with no picture ignores every command. Wake the computer on that input, or use the monitor's own buttons.",
        ),
        Whereabouts::Detached => (
            "turned off in display settings",
            "It is plugged in, but turned off in this computer's display settings, so there is no way to talk to it. Turn it on in Settings > System > Display.",
        ),
        Whereabouts::Absent => (
            "not present",
            "Nothing on this computer matches it right now, so no command here can reach it.",
        ),
    }
}

/// What is said of a configured monitor that did not answer. It is still there
/// to be listed: hiding it makes it look like it stopped existing when it has
/// only stopped talking.
pub open spec fn silent_lines(m: MonitorConfigView, place: Whereabouts) -> Seq<LineView> {
    said(""@) + said(m.label) + field_line("name it by"@, m.key) + field_line(
        "connection"@,
        m.backend_id,
    ) + field_line("current input"@, silence(place)) + labelled_lines(
        "inputs"@,
        input_texts(m.inputs, None),
    ) + labelled_lines("why"@, wrapped(silence_reason(place), 56))
}

pub open spec fn silents_lines(
    ms: Seq<MonitorConfigView>,
    displays: Seq<DesktopDisplayView>,
) -> Seq<LineView>
    decreases ms.len(),
{
    if ms.len() == 0 {
        nothing()
    } else {
        silents_lines(ms.drop_last(), displays) + silent_lines(
            ms.last(),
            whereabouts_of(displays, ms.last().backend_id),
        )
    }
}

fn tell_silent(page: &mut Page, m: &MonitorConfig, place: Whereabouts)
    ensures
        final(page)@ == old(page)@ + silent_lines(m.deep_view(), place),
{
    let (what, why) = told_silence(place);
    page.put("");
    page.put(m.label.as_str());
    page.field("name it by", m.key.as_str());
    page.field("connection", m.backend_id.as_str());
    page.field("current input", what);
    let lines = texts_of_inputs(&m.inputs, None);
    page.labelled("inputs", &lines);
    let reason = textwrap(why, 56);
    page.labelled("why", &reason);
    assert(page@ =~= old(page)@ + silent_lines(m.deep_view(), place));
}

// ---------------------------------------------------------------------------
// The whole list
// ---------------------------------------------------------------------------

pub open spec fn all_seen_lines(seen: Seq<SeenView>, config: Option<ConfigView>) -> Seq<LineView>
    decreases seen.len(),
{
    if seen.len() == 0 {
        nothing()
    } else {
        all_seen_lines(seen.drop_last(), config) + seen_lines(
            seen.last(),
            configured_for(config_of(config), seen.last().monitor.identity),
        )
    }
}

pub open spec fn identities(seen: Seq<SeenView>) -> Seq<MonitorIdentityView> {
    seen.map_values(|s: SeenView| s.monitor.identity)
}

/// The configured monitors that are none of those that answered.
pub open spec fn silent_ones(config: Option<ConfigView>, seen: Seq<SeenView>) -> Seq<
    MonitorConfigView,
> {
    let all = config_of(config);
    all.filter(unanswered_by(all, identities(seen)))
}

pub open spec fn repeated_lines(serials: Seq<Seq<char>>) -> Seq<LineView> {
    if serials.len() == 0 {
        nothing()
    } else {
        said(""@) + warning_line(
            "serial(s) "@ + joined(serials, ", "@)
                + " appear on more than one display; those panels cannot be told apart"@,
        )
    }
}

pub open spec fn nothing_to_list(seen: Seq<SeenView>, config: Option<ConfigView>) -> bool {
    seen.len() == 0 && config is None
}

pub open spec fn listing_lines(
    backend: Seq<char>,
    config: Option<ConfigView>,
    seen: Seq<SeenView>,
    detected: Seq<DetectedMonitorView>,
    displays: Seq<DesktopDisplayView>,
) -> Seq<LineView> {
    heading_lines("Monitors ("@ + backend + ")"@) + if nothing_to_list(seen, config) {
        said("  No monitor on this computer can have its input switched."@)
    } else {
        all_seen_lines(seen, config) + silents_lines(silent_ones(config, seen), displays)
            + repeated_lines(repeated_serials(detected))
    }
}

pub open spec fn opt_config(o: Option<&Config>) -> Option<ConfigView> {
    match o {
        Some(c) => Some(c.deep_view()),
        None => None,
    }
}

/// Every monitor of this computer and every configured one, with its inputs
/// and the one that shows. The code is 1 where there is nothing to list.
pub fn monitors(
    backend: &str,
    config: Option<&Config>,
    seen: &Vec<Seen>,
    detected: &[DetectedMonitor],
    displays: &[DesktopDisplay],
) -> (r: Told)
    ensures
        r.page@ == listing_lines(
            backend@,
            opt_config(config),
            seen.deep_view(),
            detected.deep_view(),
            displays.deep_view(),
        ),
        r.code == if nothing_to_list(seen.deep_view(), opt_config(config)) {
            1i32
        } else {
            0
        },
{
    let ghost c = opt_config(config);
    let ghost all = seen.deep_view();
    let ghost at = displays.deep_view();
    let mut page = Page::new();
    page.heading(cat3("Monitors (", backend, ")").as_str());
    let ghost head = page@;
    if seen.len() == 0 && config.is_none() {
        page.put("  No monitor on this computer can have its input switched.");
        return Told { page, code: 1 };
    }
    let mut present: Vec<&MonitorIdentity> = Vec::new();
    let mut i: usize = 0;
    assert(all.take(0) =~= Seq::<SeenView>::empty());
    assert(page@ =~= head + all_seen_lines(all.take(0), c));
    assert(identity_views(present@) =~= identities(all.take(0)));
    while i < seen.len()
        invariant
            i <= seen@.len(),
            all == seen.deep_view(),
            c == opt_config(config),
            page@ == head + all_seen_lines(all.take(i as int), c),
            identity_views(present@) == identities(all.take(i as int)),
        decreases seen@.len() - i,
    {
        let s = &seen[i];
        let ghost next = all.take(i as int + 1);
        assert(next.drop_last() =~= all.take(i as int));
        assert(next.last() == s.deep_view());
        let configured = match config {
            Some(c) => find_configured(c, &s.monitor.identity),
            None => {
                proof {
                    crate::seqs::lemma_first_index_none(
                        Seq::<MonitorConfigView>::empty(),
                        crate::lookup::with_serial(s.deep_view().monitor.identity.serial),
                    );
                    crate::seqs::lemma_first_index_none(
                        Seq::<MonitorConfigView>::empty(),
                        crate::lookup::at_port(s.deep_view().monitor.identity.backend_id),
                    );
                }
                None
            },
        };
        tell_seen(&mut page, s, configured);
        assert(page@ =~= head + all_seen_lines(next, c));
        let ghost had = present@;
        present.push(&s.monitor.identity);
        assert(identity_views(present@) =~= identity_views(had).push(
            s.deep_view().monitor.identity,
        ));
        assert(identity_views(present@) =~= identities(next));
        i += 1;
    }
    assert(all.take(all.len() as int) =~= all);
    let ghost p1 = page@;
    let silent: Vec<&MonitorConfig> = match config {
        Some(c) => unanswered(c, &present),
        None => {
            proof {
                crate::seqs::lemma_filter_take_none(
                    Seq::<MonitorConfigView>::empty(),
                    unanswered_by(Seq::<MonitorConfigView>::empty(), identities(all)),
                );
                assert(Seq::<MonitorConfigView>::empty().take(0) =~= Seq::<
                    MonitorConfigView,
                >::empty());
            }
            Vec::new()
        },
    };
    let ghost quiet = silent_ones(c, all);
    assert(config_views(silent@) =~= quiet);
    let mut i: usize = 0;
    assert(quiet.take(0) =~= Seq::<MonitorConfigView>::empty());
    assert(page@ =~= p1 + silents_lines(quiet.take(0), at));
    while i < silent.len()
        invariant
            i <= silent@.len(),
            config_views(silent@) == quiet,
            at == displays.deep_view(),
            page@ == p1 + silents_lines(quiet.take(i as int), at),
        decreases silent@.len() - i,
    {
        let m = silent[i];
        let ghost next = quiet.take(i as int + 1);
        assert(next.drop_last() =~= quiet.take(i as int));
        assert(quiet[i as int] == m.deep_view());
        assert(next.last() == m.deep_view());
        let place = whereabouts(displays, m.backend_id.as_str());
        tell_silent(&mut page, m, place);
        assert(page@ =~= p1 + silents_lines(next, at));
        i += 1;
    }
    assert(quiet.take(quiet.len() as int) =~= quiet);
    let ghost p2 = page@;
    let duplicates = duplicate_serials(detected);
    assert(texts(duplicates@).len() == duplicates@.len());
    if duplicates.len() > 0 {
        page.put("");
        page.warn(
            cat3(
                "serial(s) ",
                join(duplicates.as_slice(), ", ").as_str(),
                " appear on more than one display; those panels cannot be told apart",
            ).as_str(),
        );
    }
    assert(page@ =~= p2 + repeated_lines(repeated_serials(detected.deep_view())));
    assert(page@ =~= listing_lines(backend@, c, all, detected.deep_view(), at));
    Told { page, code: 0 }
}

/// No configured monitor goes missing from the list: each is one that answered
/// or is told to be silent.
pub proof fn law_every_configured_monitor_is_listed(
    config: ConfigView,
    seen: Seq<SeenView>,
    i: int,
)
    requires
        0 <= i < config.monitors.len(),
    ensures
        crate::lookup::answered(config.monitors, identities(seen), config.monitors[i].key)
            || silent_ones(Some(config), seen).contains(config.monitors[i]),
{
    crate::seqs::lemma_filter_members(
        config.monitors,
        unanswered_by(config.monitors, identities(seen)),
    );
}

/// An input is listed by its code and its name, and marked exactly where the
/// monitor is on it.
pub proof fn law_the_input_in_use_is_marked(input: MonitorInputView, now: Option<InputCode>)
    ensures
        has_text(input_text(input, now), code_text(input.input_code)),
        has_text(input_text(input, now), input.display_name()),
        input_text(input, now).len() == code_text(input.input_code).len() + 2
            + input.display_name().len() + if now == Some(input.input_code) {
            8nat
        } else {
            0nat
        },
{
    reveal_strlit("  ");
    reveal_strlit("  <- now");
    reveal_strlit("");
    let end = if now == Some(input.input_code) {
        "  <- now"@
    } else {
        ""@
    };
    lemma_has_first_and_third(
        code_text(input.input_code),
        "  "@,
        input.display_name(),
        end,
    );
}

/// A monitor is told as silent exactly where no display that answered is known
/// as it.
pub proof fn law_a_silent_monitor_is_one_that_no_display_is(
    config: ConfigView,
    seen: Seq<SeenView>,
    i: int,
)
    requires
        0 <= i < config.monitors.len(),
    ensures
        silent_ones(Some(config), seen).contains(config.monitors[i]) <==> forall|j: int|
            0 <= j < seen.len() ==> !(configured_for(
                config.monitors,
                (#[trigger] seen[j]).monitor.identity,
            ) matches Some(m) && m.key == config.monitors[i].key),
{
    let all = config.monitors;
    let ids = identities(seen);
    let p = unanswered_by(all, ids);
    let silent = all.filter(p);
    lemma_filter_members(all, p);
    assert(p(all[i]) <==> forall|j: int|
        0 <= j < seen.len() ==> !(configured_for(all, (#[trigger] seen[j]).monitor.identity) matches Some(
            m,
        ) && m.key == all[i].key)) by {
        if exists|j: int|
            0 <= j < ids.len() && crate::lookup::is_monitor(all, #[trigger] ids[j], all[i].key) {
            let j = choose|j: int|
                0 <= j < ids.len() && crate::lookup::is_monitor(all, #[trigger] ids[j], all[i].key);
            assert(ids[j] == seen[j].monitor.identity);
        }
        if exists|j: int|
            0 <= j < seen.len() && (configured_for(all, (#[trigger] seen[j]).monitor.identity)
                matches Some(m) && m.key == all[i].key) {
            let j = choose|j: int|
                0 <= j < seen.len() && (configured_for(all, (#[trigger] seen[j]).monitor.identity)
                    matches Some(m) && m.key == all[i].key);
            assert(ids[j] == seen[j].monitor.identity);
            assert(crate::lookup::is_monitor(all, ids[j], all[i].key));
        }
    }
    if silent.contains(all[i]) {
        let k = choose|k: int| 0 <= k < silent.len() && silent[k] == all[i];
        assert(p(silent[k]));
    }
}

} // verus!

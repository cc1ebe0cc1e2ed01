//! Linux desktop integration: an app-menu entry for the settings window, a
//! login entry so the top-bar icon starts with the session, and where each
//! file goes.

use vstd::prelude::*;

use crate::digits::{dec, decimal, lemma_decimal_digits};
use crate::paths::{join_path, joins, joins_two, relative_name};
use crate::text::{cat3, chars_of, has_text, lemma_has_text_between, opt_text};

verus! {

/// The icon's name in the icon theme, and the app-menu entry's file name.
///
/// GNOME matches a window to its entry by the window's Wayland app id, so the
/// settings window sets this same id and gets the icon in the dash.
pub const APP_ID: &'static str = "desktop-switcher";

/// The sizes the icon theme is given.
pub const ICON_SIZES: [u32; 7] = [16, 24, 32, 48, 64, 128, 256];

/// The characters a quoted argument of an `Exec=` line escapes.
pub open spec fn reserved(c: char) -> bool {
    c == '"' || c == '`' || c == '$' || c == '\\'
}

/// A text with every reserved character after a backslash.
pub open spec fn escaped(s: Seq<char>) -> Seq<char>
    decreases s.len(),
{
    if s.len() == 0 {
        Seq::empty()
    } else if reserved(s.last()) {
        escaped(s.drop_last()).push('\\').push(s.last())
    } else {
        escaped(s.drop_last()).push(s.last())
    }
}

/// A path as an `Exec=` line names it.
pub open spec fn exec_text(path: Seq<char>) -> Seq<char> {
    "\""@ + escaped(path) + "\""@
}

/// Quotes a path for an `Exec=` line.
pub fn exec_quote(path: &str) -> (r: String)
    ensures
        r@ == exec_text(path@),
{
    let cs = chars_of(path);
    let mut out = String::new();
    let mut i: usize = 0;
    assert(path@.take(0) =~= Seq::<char>::empty());
    while i < cs.len()
        invariant
            cs@ == path@,
            i <= cs.len(),
            out@ == escaped(path@.take(i as int)),
        decreases cs.len() - i,
    {
        let c = cs[i];
        let ghost next = path@.take(i as int + 1);
        assert(next.drop_last() =~= path@.take(i as int));
        assert(next.last() == c);
        if c == '"' || c == '`' || c == '$' || c == '\\' {
            out.push('\\');
        }
        out.push(c);
        i += 1;
    }
    assert(path@.take(path@.len() as int) =~= path@);
    cat3("\"", out.as_str(), "\"")
}

/// What an `Exec=` reader makes of the inside of a quoted argument: a
/// backslash stands for the character after it.
pub open spec fn unescaped(s: Seq<char>) -> Seq<char>
    decreases s.len(),
{
    if s.len() == 0 {
        Seq::empty()
    } else if s[0] == '\\' && s.len() > 1 {
        seq![s[1]] + unescaped(s.skip(2))
    } else {
        seq![s[0]] + unescaped(s.skip(1))
    }
}

proof fn lemma_escaped_first(s: Seq<char>)
    requires
        s.len() > 0,
    ensures
        escaped(s) == (if reserved(s[0]) {
            seq!['\\', s[0]]
        } else {
            seq![s[0]]
        }) + escaped(s.skip(1)),
    decreases s.len(),
{
    if s.len() == 1 {
        assert(s.drop_last() =~= Seq::<char>::empty());
        assert(s.skip(1) =~= Seq::<char>::empty());
        assert(escaped(s) =~= (if reserved(s[0]) {
            seq!['\\', s[0]]
        } else {
            seq![s[0]]
        }) + escaped(s.skip(1)));
    } else {
        lemma_escaped_first(s.drop_last());
        assert(s.drop_last().skip(1) =~= s.skip(1).drop_last());
        assert(s.skip(1).last() == s.last());
        assert(escaped(s) =~= (if reserved(s[0]) {
            seq!['\\', s[0]]
        } else {
            seq![s[0]]
        }) + escaped(s.skip(1)));
    }
}

/// A quoted path reads back as the path it quotes.
pub proof fn law_a_quoted_path_reads_back(path: Seq<char>)
    ensures
        exec_text(path) == "\""@ + escaped(path) + "\""@,
        unescaped(escaped(path)) == path,
    decreases path.len(),
{
    if path.len() > 0 {
        let rest = path.skip(1);
        law_a_quoted_path_reads_back(rest);
        lemma_escaped_first(path);
        let e = escaped(path);
        if reserved(path[0]) {
            assert(e.skip(2) =~= escaped(rest));
        } else {
            assert(e.skip(1) =~= escaped(rest));
        }
        assert(path =~= seq![path[0]] + rest);
    }
}

/// The app-menu entry that opens `gui`.
pub open spec fn app_entry_text(gui: Seq<char>) -> Seq<char> {
    "[Desktop Entry]\nType=Application\nName=Desktop Switcher\nComment=Switch your monitors' inputs\nExec="@
        + exec_text(gui)
        + "\nIcon=desktop-switcher\nTerminal=false\nCategories=Utility;Settings;HardwareSettings;\nStartupWMClass=desktop-switcher\n"@
}

/// The app-menu entry for the settings window.
pub fn app_entry(gui: &str) -> (r: String)
    ensures
        r@ == app_entry_text(gui@),
{
    cat3(
        "[Desktop Entry]\nType=Application\nName=Desktop Switcher\nComment=Switch your monitors' inputs\nExec=",
        exec_quote(gui).as_str(),
        "\nIcon=desktop-switcher\nTerminal=false\nCategories=Utility;Settings;HardwareSettings;\nStartupWMClass=desktop-switcher\n",
    )
}

/// The login entry that starts `tray` with the session. Hidden from the app
/// menu: the settings window starts the icon too, so there is one thing to
/// open.
pub open spec fn autostart_entry_text(tray: Seq<char>) -> Seq<char> {
    "[Desktop Entry]\nType=Application\nName=Desktop Switcher tray\nComment=Top-bar menu for switching your monitors' inputs\nExec="@
        + exec_text(tray)
        + "\nIcon=desktop-switcher\nTerminal=false\nNoDisplay=true\nX-GNOME-Autostart-enabled=true\n"@
}

/// The login entry for the top-bar icon.
pub fn autostart_entry(tray: &str) -> (r: String)
    ensures
        r@ == autostart_entry_text(tray@),
{
    cat3(
        "[Desktop Entry]\nType=Application\nName=Desktop Switcher tray\nComment=Top-bar menu for switching your monitors' inputs\nExec=",
        exec_quote(tray).as_str(),
        "\nIcon=desktop-switcher\nTerminal=false\nNoDisplay=true\nX-GNOME-Autostart-enabled=true\n",
    )
}

// ---------------------------------------------------------------------------
// Where the files go
// ---------------------------------------------------------------------------

/// The directories the entries and icons are written to.
#[derive(Debug, PartialEq, Eq)]
pub struct Places {
    pub applications: String,
    pub autostart: String,
    pub icons: String,
}

/// The directory a variable names, where it names an absolute one, and the
/// usual one under the home directory where it does not.
pub open spec fn chosen_dir(
    dir: Seq<char>,
    named: Option<Seq<char>>,
    usual: Seq<char>,
) -> bool {
    match named {
        Some(d) => if d.len() > 0 && d[0] == '/' {
            dir == d
        } else {
            dir == usual
        },
        None => dir == usual,
    }
}

fn choose_dir(named: Option<String>, usual: String) -> (r: String)
    ensures
        chosen_dir(r@, opt_text(named), usual@),
{
    match named {
        Some(d) => {
            let cs = chars_of(d.as_str());
            if cs.len() > 0 && cs[0] == '/' {
                d
            } else {
                usual
            }
        },
        None => usual,
    }
}

impl Places {
    /// The places below a directory of data and a directory of settings.
    pub open spec fn below(self, data: Seq<char>, config: Seq<char>) -> bool {
        &&& joins(self.applications@, data, "applications"@)
        &&& joins(self.autostart@, config, "autostart"@)
        &&& joins_two(self.icons@, data, "icons"@, "hicolor"@)
    }

    /// The places for a user whose home directory and whose directories of
    /// data and settings are these.
    pub open spec fn serve(
        self,
        home: Seq<char>,
        data: Option<Seq<char>>,
        config: Option<Seq<char>>,
    ) -> bool {
        exists|usual_data: Seq<char>, usual_config: Seq<char>, d: Seq<char>, c: Seq<char>|
            {
                &&& joins_two(usual_data, home, ".local"@, "share"@)
                &&& joins(usual_config, home, ".config"@)
                &&& #[trigger] chosen_dir(d, data, usual_data)
                &&& #[trigger] chosen_dir(c, config, usual_config)
                &&& self.below(d, c)
            }
    }
}

/// Where everything goes, from the values of `HOME`, `XDG_DATA_HOME` and
/// `XDG_CONFIG_HOME`.
pub fn places(home: Option<String>, data: Option<String>, config: Option<String>) -> (r: Result<
    Places,
    String,
>)
    ensures
        match r {
            Ok(p) => home matches Some(h) && p.serve(h@, opt_text(data), opt_text(config)),
            Err(e) => home is None && e@ == "HOME is not set"@,
        },
{
    match home {
        None => Err("HOME is not set".to_owned()),
        Some(home) => {
            proof {
                lemma_single_names();
            }
            let local = join_path(home.as_str(), ".local");
            let usual_data = join_path(local.as_str(), "share");
            let usual_config = join_path(home.as_str(), ".config");
            let ghost (ud, uc) = (usual_data@, usual_config@);
            assert(joins_two(ud, home@, ".local"@, "share"@));
            let d = choose_dir(data, usual_data);
            let c = choose_dir(config, usual_config);
            let theme = join_path(d.as_str(), "icons");
            let p = Places {
                applications: join_path(d.as_str(), "applications"),
                autostart: join_path(c.as_str(), "autostart"),
                icons: join_path(theme.as_str(), "hicolor"),
            };
            assert(joins_two(p.icons@, d@, "icons"@, "hicolor"@));
            assert(p.below(d@, c@));
            assert(chosen_dir(d@, opt_text(data), ud) && chosen_dir(c@, opt_text(config), uc));
            Ok(p)
        },
    }
}

/// The directory of the icons of a size under the icon theme.
pub open spec fn size_name(size: nat) -> Seq<char> {
    decimal(size) + "x"@ + decimal(size)
}

/// Where the icon of a size lies under the icon theme.
pub open spec fn is_icon_path(path: Seq<char>, theme: Seq<char>, size: nat) -> bool {
    exists|dir: Seq<char>|
        #[trigger] joins_two(dir, theme, size_name(size), "apps"@) && joins(
            path,
            dir,
            "desktop-switcher.png"@,
        )
}

/// The files an installation consists of.
#[derive(Debug, PartialEq, Eq)]
pub struct Files {
    pub app: String,
    pub login: String,
    /// The icons, each with its size.
    pub icons: Vec<(u32, String)>,
}

/// The files in these places: the two entries, and an icon of every size.
pub fn files(places: &Places) -> (r: Files)
    ensures
        joins(r.app@, places.applications@, "desktop-switcher.desktop"@),
        joins(r.login@, places.autostart@, "desktop-switcher-tray.desktop"@),
        r.icons@.len() == ICON_SIZES@.len(),
        forall|i: int|
            0 <= i < ICON_SIZES@.len() ==> {
                &&& (#[trigger] r.icons@[i]).0 == ICON_SIZES@[i]
                &&& is_icon_path(r.icons@[i].1@, places.icons@, ICON_SIZES@[i] as nat)
            },
{
    proof {
        lemma_single_names();
    }
    let app = join_path(places.applications.as_str(), "desktop-switcher.desktop");
    let login = join_path(places.autostart.as_str(), "desktop-switcher-tray.desktop");
    let sizes: [u32; 7] = ICON_SIZES;
    let mut icons: Vec<(u32, String)> = Vec::new();
    let mut i: usize = 0;
    while i < 7
        invariant
            i <= 7,
            sizes@ == ICON_SIZES@,
            relative_name("apps"@),
            relative_name("desktop-switcher.png"@),
            icons@.len() == i,
            forall|j: int|
                0 <= j < i ==> {
                    &&& (#[trigger] icons@[j]).0 == ICON_SIZES@[j]
                    &&& is_icon_path(icons@[j].1@, places.icons@, ICON_SIZES@[j] as nat)
                },
        decreases 7 - i,
    {
        let size: u32 = sizes[i];
        let side = dec(size as u64);
        let name = cat3(side.as_str(), "x", side.as_str());
        proof {
            lemma_size_name(size as nat);
        }
        let of_size = join_path(places.icons.as_str(), name.as_str());
        let apps = join_path(of_size.as_str(), "apps");
        assert(joins_two(apps@, places.icons@, size_name(size as nat), "apps"@));
        let path = join_path(apps.as_str(), "desktop-switcher.png");
        assert(is_icon_path(path@, places.icons@, size as nat));
        icons.push((size, path));
        i += 1;
    }
    Files { app, login, icons }
}

proof fn lemma_single_names()
    ensures
        relative_name(".local"@),
        relative_name("share"@),
        relative_name(".config"@),
        relative_name("applications"@),
        relative_name("autostart"@),
        relative_name("icons"@),
        relative_name("hicolor"@),
        relative_name("apps"@),
        relative_name("desktop-switcher.png"@),
        relative_name("desktop-switcher.desktop"@),
        relative_name("desktop-switcher-tray.desktop"@),
{
    reveal_strlit(".");
    reveal_strlit("..");
    reveal_strlit(".local");
    reveal_strlit("share");
    reveal_strlit(".config");
    reveal_strlit("applications");
    reveal_strlit("autostart");
    reveal_strlit("icons");
    reveal_strlit("hicolor");
    reveal_strlit("apps");
    reveal_strlit("desktop-switcher.png");
    reveal_strlit("desktop-switcher.desktop");
    reveal_strlit("desktop-switcher-tray.desktop");
    assert(".local"@.len() > 2);
    assert("share"@.len() > 2);
    assert(".config"@.len() > 2);
    assert("applications"@.len() > 2);
    assert("autostart"@.len() > 2);
    assert("icons"@.len() > 2);
    assert("hicolor"@.len() > 2);
    assert("apps"@.len() > 2);
    assert("desktop-switcher.png"@.len() > 2);
    assert("desktop-switcher.desktop"@.len() > 2);
    assert("desktop-switcher-tray.desktop"@.len() > 2);
}

proof fn lemma_size_name(size: nat)
    ensures
        relative_name(size_name(size)),
{
    lemma_decimal_digits(size);
    reveal_strlit("x");
    reveal_strlit(".");
    reveal_strlit("..");
    let d = decimal(size);
    let n = size_name(size);
    assert(n[0] == d[0]);
    assert forall|i: int| 0 <= i < n.len() implies n[i] != ':' && n[i] != '/' && n[i] != '\\' by {
        let rest = i - d.len();
        if i < d.len() {
            assert(n[i] == d[i]);
        } else if rest > 0 {
            assert(n[i] == d[rest - 1]);
        }
    }
}

/// A quotation mark, a backtick, a dollar sign and a backslash stand behind a
/// backslash of their own; nothing else does.
pub proof fn law_reserved_characters_are_escaped(a: Seq<char>, c: char, b: Seq<char>)
    ensures
        escaped(a + seq![c] + b) == escaped(a) + (if c == '"' || c == '`' || c == '$' || c
            == '\\' {
            seq!['\\', c]
        } else {
            seq![c]
        }) + escaped(b),
    decreases b.len(),
{
    let s = a + seq![c] + b;
    let kept = if c == '"' || c == '`' || c == '$' || c == '\\' {
        seq!['\\', c]
    } else {
        seq![c]
    };
    if b.len() == 0 {
        assert(s.drop_last() =~= a);
        assert(s.last() == c);
        assert(escaped(s) =~= escaped(a) + kept + escaped(b));
    } else {
        law_reserved_characters_are_escaped(a, c, b.drop_last());
        assert(s.drop_last() =~= a + seq![c] + b.drop_last());
        assert(s.last() == b.last());
        assert(escaped(s) =~= escaped(a) + kept + escaped(b));
    }
}

/// An entry runs the program it is for, and nothing in its path can end the
/// line or the quotation early.
pub proof fn law_an_entry_runs_its_program(path: Seq<char>)
    ensures
        has_text(app_entry_text(path), exec_text(path)),
        has_text(autostart_entry_text(path), exec_text(path)),
        exec_text(path).len() >= 2,
        exec_text(path)[0] == '"' && exec_text(path).last() == '"',
{
    reveal_strlit("\"");
    lemma_has_text_between(
        "[Desktop Entry]\nType=Application\nName=Desktop Switcher\nComment=Switch your monitors' inputs\nExec="@,
        exec_text(path),
        "\nIcon=desktop-switcher\nTerminal=false\nCategories=Utility;Settings;HardwareSettings;\nStartupWMClass=desktop-switcher\n"@,
    );
    lemma_has_text_between(
        "[Desktop Entry]\nType=Application\nName=Desktop Switcher tray\nComment=Top-bar menu for switching your monitors' inputs\nExec="@,
        exec_text(path),
        "\nIcon=desktop-switcher\nTerminal=false\nNoDisplay=true\nX-GNOME-Autostart-enabled=true\n"@,
    );
}

/// A directory that was named is used where it is an absolute path, and the
/// usual one where it is not or where none was named.
pub proof fn law_a_named_directory_is_used_where_it_is_absolute(
    dir: Seq<char>,
    named: Option<Seq<char>>,
    usual: Seq<char>,
)
    ensures
        chosen_dir(dir, named, usual) <==> dir == (if named is Some && (named->0).len() > 0 && (
        named->0)[0] == '/' {
            named->0
        } else {
            usual
        }),
{
}

} // verus!

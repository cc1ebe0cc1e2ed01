use desktop_switcher::desktop_entry::{
    app_entry, autostart_entry, exec_quote, files, places, APP_ID, ICON_SIZES,
};

#[test]
fn a_plain_path_is_quoted() {
    let p = "/home/berkant/.local/bin/desktop-switcher-gui";
    assert_eq!(
        exec_quote(p),
        "\"/home/berkant/.local/bin/desktop-switcher-gui\""
    );
}

/// The characters the Desktop Entry spec reserves inside quotes.
#[test]
fn reserved_characters_are_escaped() {
    let p = "/opt/my \"odd\" $dir/`x`\\bin";
    assert_eq!(
        exec_quote(p),
        "\"/opt/my \\\"odd\\\" \\$dir/\\`x\\`\\\\bin\""
    );
}

#[test]
fn the_app_entry_opens_the_settings_window_with_the_icon() {
    let text = app_entry("/usr/bin/desktop-switcher-gui");
    assert!(text.starts_with("[Desktop Entry]\n"), "{text}");
    assert!(
        text.contains("\nExec=\"/usr/bin/desktop-switcher-gui\"\n"),
        "{text}"
    );
    assert!(text.contains("\nIcon=desktop-switcher\n"), "{text}");
    assert!(
        text.contains("\nStartupWMClass=desktop-switcher\n"),
        "{text}"
    );
    assert!(!text.contains("NoDisplay"), "{text}");
}

/// Starts with the session, and stays out of the app menu.
#[test]
fn the_login_entry_starts_the_tray_and_hides_itself() {
    let text = autostart_entry("/usr/bin/desktop-switcher-tray");
    assert!(
        text.contains("\nExec=\"/usr/bin/desktop-switcher-tray\"\n"),
        "{text}"
    );
    assert!(
        text.contains("\nX-GNOME-Autostart-enabled=true\n"),
        "{text}"
    );
    assert!(text.contains("\nNoDisplay=true\n"), "{text}");
}

#[test]
fn files_go_under_the_directories_of_the_session() {
    let at = places(Some("/home/u".into()), None, Some("/cfg".into())).unwrap();
    assert_eq!(at.applications, "/home/u/.local/share/applications");
    assert_eq!(at.autostart, "/cfg/autostart");
    assert_eq!(at.icons, "/home/u/.local/share/icons/hicolor");
    let all = files(&at);
    assert_eq!(all.app, format!("/home/u/.local/share/applications/{APP_ID}.desktop"));
    assert_eq!(all.login, format!("/cfg/autostart/{APP_ID}-tray.desktop"));
    assert_eq!(all.icons.len(), ICON_SIZES.len());
    assert_eq!(
        all.icons[0].1,
        format!("/home/u/.local/share/icons/hicolor/16x16/apps/{APP_ID}.png")
    );
    assert!(places(None, None, Some("/cfg".into())).is_err());
}

#[test]
fn a_quoted_path_keeps_every_character() {
    for path in ["/a b", "", "/x\\y", "/100%"] {
        let quoted = exec_quote(path);
        assert!(quoted.starts_with('"') && quoted.ends_with('"'), "{quoted}");
    }
}

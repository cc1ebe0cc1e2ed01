use desktop_switcher::actions::Action;
use desktop_switcher::config::{BackendKind, Config};
use desktop_switcher::hotkey::{bindings, parse, Hotkey, MOD_ALT, MOD_CONTROL, MOD_SHIFT, MOD_WIN};

#[test]
fn the_hotkeys_on_the_desk_parse() {
    assert_eq!(
        parse("CTRL+ALT+1"),
        Ok(Hotkey {
            modifiers: MOD_CONTROL | MOD_ALT,
            key: 0x31
        })
    );
    assert_eq!(
        parse("F24"),
        Ok(Hotkey {
            modifiers: 0,
            key: 0x87
        })
    );
    assert_eq!(
        parse("SHIFT+F24"),
        Ok(Hotkey {
            modifiers: MOD_SHIFT,
            key: 0x87
        })
    );
}

#[test]
fn case_order_and_spacing_do_not_matter() {
    assert_eq!(parse("alt + ctrl + d"), parse("CTRL+ALT+D"));
    assert_eq!(parse("win+f1").unwrap().key, 0x70);
}

#[test]
fn named_keys_are_understood() {
    assert_eq!(parse("CTRL+PAGEDOWN").unwrap().key, 0x22);
    assert_eq!(parse("NUMPAD7").unwrap().key, 0x67);
    assert_eq!(parse("CTRL+SPACE").unwrap().key, 0x20);
}

#[test]
fn nonsense_is_explained_not_guessed() {
    assert!(parse("CTRL+ALT").unwrap_err().contains("no key"));
    assert!(parse("A+B").unwrap_err().contains("two keys"));
    assert!(parse("CTRL+F25").unwrap_err().contains("F25"));
    assert!(parse("CTRL++1").unwrap_err().contains("empty"));
    assert!(parse("HYPER+1").unwrap_err().contains("HYPER"));
}

#[test]
fn only_actions_with_hotkeys_are_bound_and_ids_start_at_one() {
    let mut c = Config::new("laptop", BackendKind::Fake);
    let mut a = Action::new("Toggle center");
    a.hotkey = Some("F24".into());
    let unbound = Action::new("No key");
    let mut b = Action::new("Toggle left");
    b.hotkey = Some("SHIFT+F24".into());
    c.actions = vec![a, unbound, b];

    let found = bindings(&c);
    assert_eq!(found.len(), 2);
    assert_eq!(
        (found[0].id, found[0].action.as_str()),
        (1, "Toggle center")
    );
    assert_eq!((found[1].id, found[1].action.as_str()), (2, "Toggle left"));
    assert!(found.iter().all(|b| b.hotkey.is_ok()));
}

#[test]
fn each_modifier_has_its_bit() {
    assert_eq!(
        parse("CTRL+ALT+SHIFT+WIN+A").unwrap(),
        Hotkey {
            modifiers: MOD_CONTROL | MOD_ALT | MOD_SHIFT | MOD_WIN,
            key: 0x41
        }
    );
}

#[test]
fn a_hotkey_that_means_nothing_is_still_bound_with_its_problem() {
    let mut c = Config::new("laptop", BackendKind::Fake);
    let mut a = Action::new("Broken");
    a.hotkey = Some("HYPER+1".into());
    c.actions = vec![a];
    let found = bindings(&c);
    assert_eq!(found[0].text, "HYPER+1");
    assert!(found[0].hotkey.is_err());
}

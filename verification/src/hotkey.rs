//! Hotkeys as the configuration writes them, turned into what Windows takes.

use vstd::prelude::*;

use crate::actions::{Action, ActionView};
use crate::config::Config;
use crate::digits::{
    all_digits, digit_worth, law_digits_are_read_for_their_worth, parse_unsigned, unsigned_value,
    worth,
};
use crate::seqs::lemma_filter_multiset;
use crate::text::{
    after_prefix, ascii_digit, ascii_upper_letter, cat3, cat5, chars_of, lemma_after_prefix, pieces,
    same_chars, split_char, split_on, string_of, strip_prefix, trim, trimmed, upper_all, uppered,
};

verus! {

pub const MOD_ALT: u32 = 0x0001;

pub const MOD_CONTROL: u32 = 0x0002;

pub const MOD_SHIFT: u32 = 0x0004;

pub const MOD_WIN: u32 = 0x0008;

/// A key combination: modifier flags and a virtual-key code.
#[derive(Debug, Clone, Copy, PartialEq, Eq, Structural)]
pub struct Hotkey {
    pub modifiers: u32,
    pub key: u32,
}

// ---------------------------------------------------------------------------
// Names
// ---------------------------------------------------------------------------

/// The modifier an upper-case name stands for.
pub open spec fn modifier_of(name: Seq<char>) -> Option<u32> {
    if name == "CTRL"@ || name == "CONTROL"@ {
        Some(MOD_CONTROL)
    } else if name == "ALT"@ {
        Some(MOD_ALT)
    } else if name == "SHIFT"@ {
        Some(MOD_SHIFT)
    } else if name == "WIN"@ || name == "SUPER"@ || name == "META"@ {
        Some(MOD_WIN)
    } else {
        None
    }
}

/// A number of at most `max` behind a prefix.
pub open spec fn numbered(name: Seq<char>, prefix: Seq<char>, max: nat) -> Option<nat> {
    match after_prefix(name, prefix) {
        None => None,
        Some(rest) => match unsigned_value(rest, 10, max) {
            Ok(n) => Some(n),
            Err(_) => None,
        },
    }
}

/// The virtual-key code of a key that has a name of its own.
pub open spec fn named_key(name: Seq<char>) -> Option<u32> {
    if name == "SPACE"@ {
        Some(0x20)
    } else if name == "ENTER"@ || name == "RETURN"@ {
        Some(0x0D)
    } else if name == "TAB"@ {
        Some(0x09)
    } else if name == "ESC"@ || name == "ESCAPE"@ {
        Some(0x1B)
    } else if name == "BACKSPACE"@ {
        Some(0x08)
    } else if name == "INSERT"@ || name == "INS"@ {
        Some(0x2D)
    } else if name == "DELETE"@ || name == "DEL"@ {
        Some(0x2E)
    } else if name == "HOME"@ {
        Some(0x24)
    } else if name == "END"@ {
        Some(0x23)
    } else if name == "PAGEUP"@ || name == "PGUP"@ {
        Some(0x21)
    } else if name == "PAGEDOWN"@ || name == "PGDN"@ {
        Some(0x22)
    } else if name == "LEFT"@ {
        Some(0x25)
    } else if name == "UP"@ {
        Some(0x26)
    } else if name == "RIGHT"@ {
        Some(0x27)
    } else if name == "DOWN"@ {
        Some(0x28)
    } else if name == "PAUSE"@ {
        Some(0x13)
    } else if name == "PRINTSCREEN"@ || name == "PRTSC"@ {
        Some(0x2C)
    } else if name == "SCROLLLOCK"@ {
        Some(0x91)
    } else {
        None
    }
}

/// The virtual-key code of a key, by its upper-case name: a letter or digit
/// by itself, a function key, a key of the number pad, or a named one.
pub open spec fn key_of(name: Seq<char>) -> Option<u32> {
    if name.len() == 1 && (ascii_upper_letter(name[0]) || ascii_digit(name[0])) {
        Some(name[0] as u32)
    } else if numbered(name, "F"@, u32::MAX as nat) matches Some(n) && 1 <= n <= 24 {
        Some((0x6F + numbered(name, "F"@, u32::MAX as nat)->0) as u32)
    } else if numbered(name, "NUMPAD"@, u32::MAX as nat) matches Some(n) && n <= 9 {
        Some((0x60 + numbered(name, "NUMPAD"@, u32::MAX as nat)->0) as u32)
    } else {
        named_key(name)
    }
}

fn is(name: &[char], word: &str) -> (r: bool)
    ensures
        r == (name@ == word@),
{
    let w = chars_of(word);
    same_chars(name, w.as_slice())
}

fn modifier(name: &[char]) -> (r: Option<u32>)
    ensures
        r == modifier_of(name@),
{
    if is(name, "CTRL") || is(name, "CONTROL") {
        Some(MOD_CONTROL)
    } else if is(name, "ALT") {
        Some(MOD_ALT)
    } else if is(name, "SHIFT") {
        Some(MOD_SHIFT)
    } else if is(name, "WIN") || is(name, "SUPER") || is(name, "META") {
        Some(MOD_WIN)
    } else {
        None
    }
}

fn number_behind(name: &[char], prefix: &str) -> (r: Option<u32>)
    ensures
        match r {
            Some(n) => numbered(name@, prefix@, u32::MAX as nat) == Some(n as nat),
            None => numbered(name@, prefix@, u32::MAX as nat) is None,
        },
{
    match strip_prefix(name, prefix) {
        None => None,
        Some(rest) => match parse_unsigned(rest, 10, u32::MAX) {
            Ok(n) => Some(n),
            Err(_) => None,
        },
    }
}

fn named(name: &[char]) -> (r: Option<u32>)
    ensures
        r == named_key(name@),
{
    if is(name, "SPACE") {
        Some(0x20)
    } else if is(name, "ENTER") || is(name, "RETURN") {
        Some(0x0D)
    } else if is(name, "TAB") {
        Some(0x09)
    } else if is(name, "ESC") || is(name, "ESCAPE") {
        Some(0x1B)
    } else if is(name, "BACKSPACE") {
        Some(0x08)
    } else if is(name, "INSERT") || is(name, "INS") {
        Some(0x2D)
    } else if is(name, "DELETE") || is(name, "DEL") {
        Some(0x2E)
    } else if is(name, "HOME") {
        Some(0x24)
    } else if is(name, "END") {
        Some(0x23)
    } else if is(name, "PAGEUP") || is(name, "PGUP") {
        Some(0x21)
    } else if is(name, "PAGEDOWN") || is(name, "PGDN") {
        Some(0x22)
    } else if is(name, "LEFT") {
        Some(0x25)
    } else if is(name, "UP") {
        Some(0x26)
    } else if is(name, "RIGHT") {
        Some(0x27)
    } else if is(name, "DOWN") {
        Some(0x28)
    } else if is(name, "PAUSE") {
        Some(0x13)
    } else if is(name, "PRINTSCREEN") || is(name, "PRTSC") {
        Some(0x2C)
    } else if is(name, "SCROLLLOCK") {
        Some(0x91)
    } else {
        None
    }
}

/// Windows virtual-key code for a key name, upper-cased.
pub fn virtual_key(name: &[char]) -> (r: Option<u32>)
    ensures
        r == key_of(name@),
{
    if name.len() == 1 {
        let c = name[0];
        if ('A' <= c && c <= 'Z') || ('0' <= c && c <= '9') {
            return Some(c as u32);
        }
    }
    if let Some(n) = number_behind(name, "F") {
        if 1 <= n && n <= 24 {
            return Some(0x6F + n);
        }
    }
    if let Some(n) = number_behind(name, "NUMPAD") {
        if n <= 9 {
            return Some(0x60 + n);
        }
    }
    named(name)
}

// ---------------------------------------------------------------------------
// Reading
// ---------------------------------------------------------------------------

/// What has been read: the modifiers, and the key once there is one.
pub type Held = (u32, Option<u32>);

/// One more part of the hotkey `text`.
pub open spec fn with_part(text: Seq<char>, held: Held, part: Seq<char>) -> Result<
    Held,
    Seq<char>,
> {
    let p = trimmed(part);
    let name = upper_all(p);
    if p.len() == 0 {
        Err("`"@ + text + "` has an empty part"@)
    } else {
        match modifier_of(name) {
            Some(m) => Ok((held.0 | m, held.1)),
            None => if held.1 is Some {
                Err("`"@ + text + "` names two keys; a hotkey has one"@)
            } else {
                match key_of(name) {
                    Some(k) => Ok((held.0, Some(k))),
                    None => Err(
                        "`"@ + p + "` in `"@ + text + "` is not a key this understands"@,
                    ),
                }
            },
        }
    }
}

/// The parts of the hotkey `text` read from the left, up to the first that
/// cannot stand where it does.
pub open spec fn read_parts(text: Seq<char>, parts: Seq<Seq<char>>) -> Result<Held, Seq<char>>
    decreases parts.len(),
{
    if parts.len() == 0 {
        Ok((0u32, None::<u32>))
    } else {
        match read_parts(text, parts.drop_last()) {
            Err(e) => Err(e),
            Ok(held) => with_part(text, held, parts.last()),
        }
    }
}

/// The hotkey a text describes, or why it describes none.
pub open spec fn hotkey_of(text: Seq<char>) -> Result<Hotkey, Seq<char>> {
    match read_parts(text, split_on(text, '+')) {
        Err(e) => Err(e),
        Ok(held) => match held.1 {
            Some(key) => Ok(Hotkey { modifiers: held.0, key }),
            None => Err("`"@ + text + "` has modifiers but no key"@),
        },
    }
}

pub open spec fn hotkey_view(r: Result<Hotkey, String>) -> Result<Hotkey, Seq<char>> {
    match r {
        Ok(h) => Ok(h),
        Err(e) => Err(e@),
    }
}

proof fn lemma_read_fails(text: Seq<char>, parts: Seq<Seq<char>>, n: int)
    requires
        0 <= n <= parts.len(),
        read_parts(text, parts.take(n)) is Err,
    ensures
        read_parts(text, parts) == read_parts(text, parts.take(n)),
    decreases parts.len() - n,
{
    if n == parts.len() {
        assert(parts.take(n) =~= parts);
    } else {
        let next = parts.take(n + 1);
        assert(next.drop_last() =~= parts.take(n));
        lemma_read_fails(text, parts, n + 1);
    }
}

/// `CTRL+ALT+1`, `F24`, `shift+f24`: modifiers and exactly one key.
pub fn parse(text: &str) -> (r: Result<Hotkey, String>)
    ensures
        hotkey_view(r) == hotkey_of(text@),
{
    let cs = chars_of(text);
    let parts = split_char(cs.as_slice(), '+');
    let ghost all = split_on(text@, '+');
    let mut modifiers: u32 = 0;
    let mut key: Option<u32> = None;
    let mut i: usize = 0;
    assert(all.take(0) =~= Seq::<Seq<char>>::empty());
    while i < parts.len()
        invariant
            i <= parts.len(),
            pieces(parts@) == all,
            all == split_on(text@, '+'),
            read_parts(text@, all.take(i as int)) == Ok::<Held, Seq<char>>((modifiers, key)),
        decreases parts.len() - i,
    {
        let ghost next = all.take(i as int + 1);
        assert(next.drop_last() =~= all.take(i as int));
        assert(next.last() == parts@[i as int]@);
        proof {
            if read_parts(text@, next) is Err {
                lemma_read_fails(text@, all, i as int + 1);
            }
        }
        let part = trim(parts[i]);
        if part.len() == 0 {
            return Err(cat3("`", text, "` has an empty part"));
        }
        let name = uppered(part);
        match modifier(name.as_slice()) {
            Some(m) => {
                modifiers = modifiers | m;
            },
            None => {
                if key.is_some() {
                    return Err(cat3("`", text, "` names two keys; a hotkey has one"));
                }
                match virtual_key(name.as_slice()) {
                    Some(k) => {
                        key = Some(k);
                    },
                    None => {
                        return Err(
                            cat5(
                                "`",
                                string_of(part).as_str(),
                                "` in `",
                                text,
                                "` is not a key this understands",
                            ),
                        );
                    },
                }
            },
        }
        i += 1;
    }
    assert(all.take(all.len() as int) =~= all);
    match key {
        Some(key) => Ok(Hotkey { modifiers, key }),
        None => Err(cat3("`", text, "` has modifiers but no key")),
    }
}

// ---------------------------------------------------------------------------
// What does not matter
// ---------------------------------------------------------------------------

/// The parts of a hotkey as they are understood: trimmed and in upper case.
pub open spec fn part_names(parts: Seq<Seq<char>>) -> Seq<Seq<char>> {
    parts.map_values(|p: Seq<char>| upper_all(trimmed(p)))
}

pub open spec fn names_a_key() -> spec_fn(Seq<char>) -> bool {
    |name: Seq<char>| modifier_of(name) is None
}

/// A modifier added to those that are held.
pub open spec fn pressed() -> spec_fn(u32, Seq<char>) -> u32 {
    |m: u32, name: Seq<char>|
        match modifier_of(name) {
            Some(flag) => m | flag,
            None => m,
        }
}

/// The modifiers among the names.
pub open spec fn modifiers_in(names: Seq<Seq<char>>) -> u32 {
    names.fold_left(0u32, pressed())
}

/// Names that make a hotkey: none is empty, and exactly one is a key's.
pub open spec fn make_a_hotkey(names: Seq<Seq<char>>) -> bool {
    let keys = names.filter(names_a_key());
    &&& !names.contains(Seq::empty())
    &&& keys.len() == 1
    &&& key_of(keys[0]) is Some
}

proof fn lemma_read(text: Seq<char>, parts: Seq<Seq<char>>)
    ensures
        ({
            let names = part_names(parts);
            let keys = names.filter(names_a_key());
            match read_parts(text, parts) {
                Ok(held) => {
                    &&& !names.contains(Seq::empty())
                    &&& held.0 == modifiers_in(names)
                    &&& keys.len() <= 1
                    &&& held.1 is Some <==> keys.len() == 1
                    &&& keys.len() == 1 ==> held.1 == key_of(keys[0])
                },
                Err(_) => {
                    ||| names.contains(Seq::empty())
                    ||| keys.len() > 1
                    ||| keys.len() == 1 && key_of(keys[0]) is None
                },
            }
        }),
    decreases parts.len(),
{
    reveal(Seq::filter);
    let names = part_names(parts);
    if parts.len() > 0 {
        let front = parts.drop_last();
        let name = upper_all(trimmed(parts.last()));
        lemma_read(text, front);
        assert(names.drop_last() =~= part_names(front));
        assert(names.last() == name);
        let f = names.drop_last();
        let keys = f.filter(names_a_key());
        assert(names.filter(names_a_key()) =~= if names_a_key()(name) {
            keys.push(name)
        } else {
            keys
        });
        assert(names.contains(Seq::empty()) <==> f.contains(Seq::empty()) || name.len() == 0) by {
            if names.contains(Seq::empty()) {
                let i = choose|i: int| 0 <= i < names.len() && names[i] == Seq::<char>::empty();
                if i < f.len() {
                    assert(f[i] == names[i]);
                } else {
                    assert(names[i] == name);
                }
            }
            if f.contains(Seq::empty()) {
                let i = choose|i: int| 0 <= i < f.len() && f[i] == Seq::<char>::empty();
                assert(names[i] == f[i]);
            }
            if name.len() == 0 {
                assert(name =~= Seq::<char>::empty());
                assert(names[names.len() - 1] == name);
            }
        }
    }
}

/// How a hotkey is spaced, in which case it is written and in which order its
/// parts come does not matter: texts whose parts have the same names describe
/// the same hotkey, or none of them describes one.
pub proof fn law_hotkeys_are_what_their_parts_name(a: Seq<char>, b: Seq<char>)
    requires
        part_names(split_on(a, '+')).to_multiset() == part_names(split_on(b, '+')).to_multiset(),
    ensures
        hotkey_of(a) is Ok <==> hotkey_of(b) is Ok,
        hotkey_of(a) matches Ok(h) ==> hotkey_of(b) == Ok::<Hotkey, Seq<char>>(h),
        hotkey_of(a) is Ok <==> make_a_hotkey(part_names(split_on(a, '+'))),
{
    broadcast use vstd::multiset::group_multiset_axioms;

    let x = part_names(split_on(a, '+'));
    let y = part_names(split_on(b, '+'));
    lemma_read(a, split_on(a, '+'));
    lemma_read(b, split_on(b, '+'));
    // The same modifiers.
    assert(vstd::seq_lib::commutative_foldl(pressed())) by {
        assert forall|n: Seq<char>, m: Seq<char>, v: u32|
            #[trigger] pressed()(pressed()(v, n), m) == pressed()(pressed()(v, m), n) by {
            match (modifier_of(n), modifier_of(m)) {
                (Some(p), Some(q)) => {
                    assert((v | p) | q == (v | q) | p) by (bit_vector);
                },
                _ => {},
            }
        }
    }
    vstd::seq_lib::lemma_fold_left_permutation(x, y, pressed(), 0u32);
    // The same keys.
    lemma_filter_multiset(x, names_a_key());
    lemma_filter_multiset(y, names_a_key());
    let kx = x.filter(names_a_key());
    let ky = y.filter(names_a_key());
    vstd::seq_lib::to_multiset_len(kx);
    vstd::seq_lib::to_multiset_len(ky);
    if kx.len() == 1 {
        kx.to_multiset_ensures();
        ky.to_multiset_ensures();
        assert(kx.contains(kx[0]));
        assert(kx.to_multiset() == ky.to_multiset());
        assert(kx.to_multiset().count(kx[0]) > 0);
        assert(ky.contains(kx[0]));
        let i = choose|i: int| 0 <= i < ky.len() && ky[i] == kx[0];
        assert(ky[0] == kx[0]);
    }
    // The same empty parts.
    x.to_multiset_ensures();
    y.to_multiset_ensures();
    assert(x.contains(Seq::empty()) <==> x.to_multiset().count(Seq::empty()) > 0);
    assert(y.contains(Seq::empty()) <==> y.to_multiset().count(Seq::empty()) > 0);
}

// ---------------------------------------------------------------------------
// Bindings
// ---------------------------------------------------------------------------

/// One action's hotkey, ready to register or explaining why it cannot be.
#[derive(Debug, PartialEq, Eq)]
pub struct Binding {
    /// The id Windows reports back when the hotkey is pressed.
    pub id: i32,
    pub action: String,
    /// As written in the configuration, for messages.
    pub text: String,
    pub hotkey: Result<Hotkey, String>,
}

pub struct BindingView {
    pub id: int,
    pub action: Seq<char>,
    pub text: Seq<char>,
    pub hotkey: Result<Hotkey, Seq<char>>,
}

impl DeepView for Binding {
    type V = BindingView;

    open spec fn deep_view(&self) -> BindingView {
        BindingView {
            id: self.id as int,
            action: self.action@,
            text: self.text@,
            hotkey: hotkey_view(self.hotkey),
        }
    }
}

/// The hotkey of an action that has one.
pub open spec fn bound_text(action: ActionView) -> Option<Seq<char>> {
    match action.hotkey {
        None => None,
        Some(hotkey) => if trimmed(hotkey).len() == 0 {
            None
        } else {
            Some(trimmed(hotkey))
        },
    }
}

/// Every action that has a hotkey, numbered from 1.
pub open spec fn bindings_of(actions: Seq<ActionView>) -> Seq<BindingView>
    decreases actions.len(),
{
    if actions.len() == 0 {
        Seq::empty()
    } else {
        let front = bindings_of(actions.drop_last());
        match bound_text(actions.last()) {
            None => front,
            Some(text) => front.push(
                BindingView {
                    id: front.len() as int + 1,
                    action: actions.last().name,
                    text,
                    hotkey: hotkey_of(text),
                },
            ),
        }
    }
}

/// Every action that has a hotkey, numbered from 1.
pub fn bindings(config: &Config) -> (r: Vec<Binding>)
    requires
        config.actions@.len() <= i32::MAX,
    ensures
        r.deep_view() == bindings_of(config.deep_view().actions),
{
    let ghost all = config.deep_view().actions;
    let mut out: Vec<Binding> = Vec::new();
    let mut i: usize = 0;
    assert(all.take(0) =~= Seq::<ActionView>::empty());
    assert(out.deep_view() =~= bindings_of(all.take(0)));
    while i < config.actions.len()
        invariant
            i <= config.actions@.len() <= i32::MAX,
            all == config.deep_view().actions,
            out@.len() <= i,
            out.deep_view() == bindings_of(all.take(i as int)),
        decreases config.actions@.len() - i,
    {
        let action: &Action = &config.actions[i];
        let ghost next = all.take(i as int + 1);
        assert(next.drop_last() =~= all.take(i as int));
        assert(next.last() == action.deep_view());
        if let Some(hotkey) = &action.hotkey {
            let cs = chars_of(hotkey.as_str());
            let text = trim(cs.as_slice());
            if text.len() > 0 {
                let text = string_of(text);
                let ghost before = out@;
                out.push(
                    Binding {
                        id: out.len() as i32 + 1,
                        action: action.name.clone(),
                        hotkey: parse(text.as_str()),
                        text,
                    },
                );
                assert(out.deep_view() =~= bindings_of(next));
            }
        }
        i += 1;
    }
    assert(all.take(all.len() as int) =~= all);
    out
}

proof fn lemma_bindings_ids(actions: Seq<ActionView>)
    ensures
        forall|i: int|
            0 <= i < bindings_of(actions).len() ==> (#[trigger] bindings_of(actions)[i]).id == i + 1,
    decreases actions.len(),
{
    if actions.len() > 0 {
        lemma_bindings_ids(actions.drop_last());
    }
}

/// Ids start at 1 and no two bindings share one.
pub proof fn law_binding_ids_are_distinct(actions: Seq<ActionView>, i: int, j: int)
    requires
        0 <= i < j < bindings_of(actions).len(),
    ensures
        1 <= bindings_of(actions)[i].id < bindings_of(actions)[j].id,
        bindings_of(actions)[0].id == 1,
{
    lemma_bindings_ids(actions);
}

// ---------------------------------------------------------------------------
// Laws of keys
// ---------------------------------------------------------------------------

/// A letter or a digit is the key of its own code.
pub proof fn law_a_letter_is_its_own_key(c: char)
    requires
        'A' <= c <= 'Z' || '0' <= c <= '9',
    ensures
        key_of(seq![c]) == Some(c as u32),
        modifier_of(seq![c]) is None,
{
    lemma_modifiers_are_long(seq![c]);
}

proof fn lemma_modifiers_are_long(name: Seq<char>)
    ensures
        name.len() < 3 ==> modifier_of(name) is None,
{
    reveal_strlit("CTRL");
    reveal_strlit("CONTROL");
    reveal_strlit("ALT");
    reveal_strlit("SHIFT");
    reveal_strlit("WIN");
    reveal_strlit("SUPER");
    reveal_strlit("META");
}

/// The function keys are numbered from F1 on, and there are twenty-four; the
/// keys of the number pad from nought, and there are ten.
pub proof fn law_numbered_keys_stand_in_a_row(digits: Seq<char>)
    requires
        digits.len() > 0,
        all_digits(digits, 10),
    ensures
        1 <= worth(digits, 10) <= 24 ==> key_of("F"@ + digits) == Some(
            (0x70 + worth(digits, 10) - 1) as u32,
        ),
        worth(digits, 10) <= 9 ==> key_of("NUMPAD"@ + digits) == Some(
            (0x60 + worth(digits, 10)) as u32,
        ),
        worth(digits, 10) < 1 || worth(digits, 10) > 24 ==> key_of("F"@ + digits) is None,
        worth(digits, 10) > 9 ==> key_of("NUMPAD"@ + digits) is None,
{
    assert(0 <= digit_worth(digits[0]));
    law_digits_are_read_for_their_worth(digits, 10, u32::MAX as nat);
    lemma_after_prefix("F"@, digits);
    lemma_after_prefix("NUMPAD"@, digits);
    let f = "F"@ + digits;
    let n = "NUMPAD"@ + digits;
    reveal_strlit("F");
    reveal_strlit("NUMPAD");
    assert(f.len() >= 2 && n.len() >= 7);
    assert(n[0] == 'N');
    if "F"@.is_prefix_of(n) {
        assert(n.subrange(0, 1)[0] == n[0]);
    }
    assert(f[0] == 'F');
    if "NUMPAD"@.is_prefix_of(f) {
        assert(f.subrange(0, 6)[0] == f[0]);
    }
    let last = digits.last();
    assert(0 <= digit_worth(digits[digits.len() - 1]) < 10);
    assert(f.last() == last && n.last() == last);
    lemma_no_name_ends_in_a_digit(f);
    lemma_no_name_ends_in_a_digit(n);
}

proof fn lemma_no_name_ends_in_a_digit(name: Seq<char>)
    requires
        name.len() > 0,
        0 <= digit_worth(name.last()) < 10,
    ensures
        named_key(name) is None,
{
    reveal_strlit("SPACE");
    reveal_strlit("ENTER");
    reveal_strlit("RETURN");
    reveal_strlit("TAB");
    reveal_strlit("ESC");
    reveal_strlit("ESCAPE");
    reveal_strlit("BACKSPACE");
    reveal_strlit("INSERT");
    reveal_strlit("INS");
    reveal_strlit("DELETE");
    reveal_strlit("DEL");
    reveal_strlit("HOME");
    reveal_strlit("END");
    reveal_strlit("PAGEUP");
    reveal_strlit("PGUP");
    reveal_strlit("PAGEDOWN");
    reveal_strlit("PGDN");
    reveal_strlit("LEFT");
    reveal_strlit("UP");
    reveal_strlit("RIGHT");
    reveal_strlit("DOWN");
    reveal_strlit("PAUSE");
    reveal_strlit("PRINTSCREEN");
    reveal_strlit("PRTSC");
    reveal_strlit("SCROLLLOCK");
    let d = name.last();
    assert("SPACE"@.last() == 'E' && "ENTER"@.last() == 'R' && "RETURN"@.last() == 'N');
    assert("TAB"@.last() == 'B' && "ESC"@.last() == 'C' && "ESCAPE"@.last() == 'E');
    assert("BACKSPACE"@.last() == 'E' && "INSERT"@.last() == 'T' && "INS"@.last() == 'S');
    assert("DELETE"@.last() == 'E' && "DEL"@.last() == 'L' && "HOME"@.last() == 'E');
    assert("END"@.last() == 'D' && "PAGEUP"@.last() == 'P' && "PGUP"@.last() == 'P');
    assert("PAGEDOWN"@.last() == 'N' && "PGDN"@.last() == 'N' && "LEFT"@.last() == 'T');
    assert("UP"@.last() == 'P' && "RIGHT"@.last() == 'T' && "DOWN"@.last() == 'N');
    assert("PAUSE"@.last() == 'E' && "PRINTSCREEN"@.last() == 'N');
    assert("PRTSC"@.last() == 'C' && "SCROLLLOCK"@.last() == 'K');
}

/// Two names stand for one key only where they are two names of it, and no
/// named key is a letter, a digit, a function key or one of the number pad.
pub proof fn law_named_keys_are_told_apart(a: Seq<char>, b: Seq<char>)
    requires
        named_key(a) is Some,
        named_key(a) == named_key(b),
    ensures
        ({
            let pair = |x: Seq<char>, y: Seq<char>| (a == x && b == y) || (a == y && b == x);
            ||| a == b
            ||| pair("ENTER"@, "RETURN"@)
            ||| pair("ESC"@, "ESCAPE"@)
            ||| pair("INSERT"@, "INS"@)
            ||| pair("DELETE"@, "DEL"@)
            ||| pair("PAGEUP"@, "PGUP"@)
            ||| pair("PAGEDOWN"@, "PGDN"@)
            ||| pair("PRINTSCREEN"@, "PRTSC"@)
        }),
        ({
            let k = named_key(a)->0;
            !(0x30 <= k <= 0x39) && !(0x41 <= k <= 0x5A) && !(0x60 <= k <= 0x69) && !(0x70 <= k
                <= 0x87)
        }),
{
}

/// A modifier is named by one of its names, and each has a bit of its own.
pub proof fn law_each_modifier_has_its_bit(name: Seq<char>)
    ensures
        modifier_of(name) == Some(1u32) <==> name == "ALT"@,
        modifier_of(name) == Some(2u32) <==> name == "CTRL"@ || name == "CONTROL"@,
        modifier_of(name) == Some(4u32) <==> name == "SHIFT"@,
        modifier_of(name) == Some(8u32) <==> name == "WIN"@ || name == "SUPER"@ || name == "META"@,
        modifier_of(name) is Some ==> {
            let m = modifier_of(name)->0;
            m == 1 || m == 2 || m == 4 || m == 8
        },
{
    reveal_strlit("CTRL");
    reveal_strlit("CONTROL");
    reveal_strlit("ALT");
    reveal_strlit("SHIFT");
    reveal_strlit("WIN");
    reveal_strlit("SUPER");
    reveal_strlit("META");
    assert("CTRL"@.len() == 4 && "CONTROL"@.len() == 7 && "ALT"@.len() == 3);
    assert("SHIFT"@.len() == 5 && "WIN"@.len() == 3 && "SUPER"@.len() == 5 && "META"@.len() == 4);
    assert("ALT"@[0] == 'A' && "WIN"@[0] == 'W' && "CTRL"@[0] == 'C' && "META"@[0] == 'M');
    assert("SHIFT"@[1] == 'H' && "SUPER"@[1] == 'U');
}

/// A hotkey holds down exactly the modifiers that its parts name, and presses
/// the key that the one other part names.
pub proof fn law_a_hotkey_is_what_its_parts_name(text: Seq<char>, bit: u32)
    requires
        bit == 1 || bit == 2 || bit == 4 || bit == 8,
        hotkey_of(text) is Ok,
    ensures
        (hotkey_of(text)->Ok_0).modifiers & bit != 0 <==> exists|i: int|
            0 <= i < part_names(split_on(text, '+')).len() && modifier_of(
                #[trigger] part_names(split_on(text, '+'))[i],
            ) == Some(bit),
        forall|i: int|
            0 <= i < part_names(split_on(text, '+')).len() && modifier_of(
                #[trigger] part_names(split_on(text, '+'))[i],
            ) is None ==> key_of(part_names(split_on(text, '+'))[i]) == Some(
                (hotkey_of(text)->Ok_0).key,
            ),
{
    lemma_parts_read(text, split_on(text, '+'), bit);
}

proof fn lemma_parts_read(text: Seq<char>, parts: Seq<Seq<char>>, bit: u32)
    requires
        bit == 1 || bit == 2 || bit == 4 || bit == 8,
        read_parts(text, parts) is Ok,
    ensures
        ({
            let held = read_parts(text, parts)->Ok_0;
            let names = part_names(parts);
            &&& held.0 & bit != 0 <==> exists|i: int|
                0 <= i < names.len() && modifier_of(#[trigger] names[i]) == Some(bit)
            &&& forall|i: int|
                0 <= i < names.len() && modifier_of(#[trigger] names[i]) is None ==> key_of(
                    names[i],
                ) is Some && held.1 == key_of(names[i])
        }),
    decreases parts.len(),
{
    if parts.len() == 0 {
        assert(0u32 & bit == 0) by (bit_vector);
    } else {
        let front = parts.drop_last();
        lemma_parts_read(text, front, bit);
        let before = read_parts(text, front)->Ok_0;
        let held = read_parts(text, parts)->Ok_0;
        let names = part_names(parts);
        let earlier = part_names(front);
        let last = names.len() - 1;
        assert(names[last] == upper_all(trimmed(parts.last())));
        assert forall|i: int| 0 <= i < earlier.len() implies earlier[i] == names[i] by {}
        law_each_modifier_has_its_bit(names[last]);
        if let Some(m) = modifier_of(names[last]) {
            let a = before.0;
            assert((a | m) & bit != 0 <==> (a & bit != 0 || m == bit)) by (bit_vector)
                requires
                    bit == 1 || bit == 2 || bit == 4 || bit == 8,
                    m == 1 || m == 2 || m == 4 || m == 8,
            ;
        }
        if before.0 & bit != 0 {
            let i = choose|i: int|
                0 <= i < earlier.len() && modifier_of(#[trigger] earlier[i]) == Some(bit);
            assert(modifier_of(names[i]) == Some(bit));
        }
        if exists|i: int| 0 <= i < names.len() && modifier_of(#[trigger] names[i]) == Some(bit) {
            let i = choose|i: int|
                0 <= i < names.len() && modifier_of(#[trigger] names[i]) == Some(bit);
            if i < last {
                assert(modifier_of(earlier[i]) == Some(bit));
            }
        }
        assert forall|i: int|
            0 <= i < names.len() && modifier_of(#[trigger] names[i]) is None implies key_of(
            names[i],
        ) is Some && held.1 == key_of(names[i]) by {
            if i < last {
                assert(modifier_of(earlier[i]) is None);
            }
        }
    }
}

/// Every action with a hotkey is bound to it, under its own name; an action
/// whose hotkey is blank is bound to none.
pub proof fn law_every_hotkey_is_bound(actions: Seq<ActionView>, i: int)
    requires
        0 <= i < actions.len(),
    ensures
        (actions[i].hotkey matches Some(h) && trimmed(h).len() > 0) ==> exists|k: int|
            0 <= k < bindings_of(actions).len() && (#[trigger] bindings_of(actions)[k]).action
                == actions[i].name && bindings_of(actions)[k].text == trimmed(actions[i].hotkey->0)
                && bindings_of(actions)[k].hotkey == hotkey_of(trimmed(actions[i].hotkey->0)),
        bindings_of(actions).len() == actions.filter(
            |a: ActionView| a.hotkey matches Some(h) && trimmed(h).len() > 0,
        ).len(),
    decreases actions.len(),
{
    reveal(Seq::filter);
    let front = actions.drop_last();
    let before = bindings_of(front);
    let all = bindings_of(actions);
    let p = |a: ActionView| a.hotkey matches Some(h) && trimmed(h).len() > 0;
    assert(p(actions.last()) <==> bound_text(actions.last()) is Some);
    if front.len() == 0 {
        assert(front.filter(p).len() == 0);
        assert(before.len() == 0);
    }
    assert(actions.filter(p) == if p(actions.last()) {
        front.filter(p).push(actions.last())
    } else {
        front.filter(p)
    });
    if i < front.len() {
        law_every_hotkey_is_bound(front, i);
        assert(front[i] == actions[i]);
        if p(actions[i]) {
            let k = choose|k: int|
                0 <= k < before.len() && (#[trigger] before[k]).action == front[i].name
                    && before[k].text == trimmed(front[i].hotkey->0) && before[k].hotkey
                    == hotkey_of(trimmed(front[i].hotkey->0));
            assert(all[k] == before[k]);
        }
    } else {
        if front.len() > 0 {
            law_every_hotkey_is_bound(front, 0);
        }
        if p(actions[i]) {
            assert(all[before.len() as int].action == actions[i].name);
        }
    }
}

} // verus!

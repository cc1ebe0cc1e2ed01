//! Where Windows keeps a display's EDID.
//!
//! Windows names a display by a DevicePath such as
//! `\\?\DISPLAY#AOC2702#5&23e00778&0&UID4613`. The same components address the
//! device's registry key, where Windows caches the EDID block the monitor sent
//! during handshake. Reading it needs no elevation.

use vstd::prelude::*;
use vstd::slice::slice_subrange;

use crate::text::{
    cat5, chars_of, contains_char, contains_str, has_text, law_a_text_splits_at_a_separator,
    law_a_text_without_separator_is_whole, law_nothing_but_case_is_ignored,
    lemma_split_on_nonempty, opt_text, pieces, same_chars_ignoring_case, same_ignoring_case,
    same_letter, spelled_alike, split_char, split_on, starts_with, string_of,
};

verus! {

/// `s` without the copies of `prefix` that it begins with.
pub open spec fn without_leading(s: Seq<char>, prefix: Seq<char>) -> Seq<char>
    decreases s.len(),
{
    if prefix.len() > 0 && prefix.is_prefix_of(s) {
        without_leading(s.skip(prefix.len() as int), prefix)
    } else {
        s
    }
}

fn strip_leading<'a>(s: &'a [char], prefix: &str) -> (r: &'a [char])
    requires
        prefix@.len() > 0,
    ensures
        r@ == without_leading(s@, prefix@),
{
    let p = chars_of(prefix);
    let n: usize = p.len();
    let mut rest: &'a [char] = s;
    while starts_with(rest, p.as_slice())
        invariant
            p@ == prefix@,
            n == p@.len(),
            n > 0,
            without_leading(s@, prefix@) == without_leading(rest@, prefix@),
        decreases rest@.len(),
    {
        let end: usize = rest.len();
        let next = slice_subrange(rest, n, end);
        assert(next@ =~= rest@.skip(n as int));
        rest = next;
    }
    rest
}

/// A component that names a key and cannot lead out of it.
pub open spec fn safe_component(part: Seq<char>) -> bool {
    part.len() > 0 && !part.contains('\\') && !part.contains('/') && !has_text(part, ".."@)
}

/// The parts of a device path between its separators.
pub open spec fn path_parts(device_path: Seq<char>) -> Seq<Seq<char>> {
    split_on(without_leading(without_leading(device_path, "\\\\?\\"@), "\\\\.\\"@), '#')
}

/// The `Device Parameters` key of a `DISPLAY` device path. There is none for
/// anything else.
pub open spec fn parameters_key(device_path: Seq<char>) -> Option<Seq<char>> {
    let parts = path_parts(device_path);
    if parts.len() >= 3 && same_ignoring_case(parts[0], "DISPLAY"@) && safe_component(parts[1])
        && safe_component(parts[2]) {
        Some(
            "SYSTEM\\CurrentControlSet\\Enum\\DISPLAY\\"@ + parts[1] + "\\"@ + parts[2]
                + "\\Device Parameters"@,
        )
    } else {
        None
    }
}

fn is_safe_component(part: &[char]) -> (r: bool)
    ensures
        r == safe_component(part@),
{
    part.len() > 0 && !contains_char(part, '\\') && !contains_char(part, '/') && !contains_str(
        part,
        "..",
    )
}

/// Translate a DevicePath into the `Device Parameters` key that holds its EDID.
///
/// Returns `None` for anything that is not a `DISPLAY` device path, rather
/// than building a registry path out of unvalidated input.
pub fn registry_subpath(device_path: &str) -> (r: Option<String>)
    ensures
        opt_text(r) == parameters_key(device_path@),
{
    let cs = chars_of(device_path);
    proof {
        reveal_strlit("\\\\?\\");
        reveal_strlit("\\\\.\\");
    }
    let bare = strip_leading(strip_leading(cs.as_slice(), "\\\\?\\"), "\\\\.\\");
    let parts = split_char(bare, '#');
    let ghost ps = path_parts(device_path@);
    assert(ps == pieces(parts@));
    if parts.len() < 3 {
        return None;
    }
    assert(ps[0] == parts@[0]@ && ps[1] == parts@[1]@ && ps[2] == parts@[2]@);
    let display = chars_of("DISPLAY");
    if same_chars_ignoring_case(parts[0], display.as_slice()) && is_safe_component(parts[1])
        && is_safe_component(parts[2]) {
        Some(
            cat5(
                "SYSTEM\\CurrentControlSet\\Enum\\DISPLAY\\",
                string_of(parts[1]).as_str(),
                "\\",
                string_of(parts[2]).as_str(),
                "\\Device Parameters",
            ),
        )
    } else {
        None
    }
}

/// A key is only ever built under the display devices, from two components
/// that hold no separator and no way up.
pub proof fn law_keys_stay_under_the_display_devices(device_path: Seq<char>)
    ensures
        parameters_key(device_path) matches Some(key) ==> exists|hardware: Seq<char>, instance: Seq<
            char,
        >|
            safe_component(hardware) && safe_component(instance) && key == (
            "SYSTEM\\CurrentControlSet\\Enum\\DISPLAY\\"@ + hardware + "\\"@ + instance
                + "\\Device Parameters"@),
{
    let parts = path_parts(device_path);
    if parameters_key(device_path) is Some {
        assert(safe_component(parts[1]) && safe_component(parts[2]));
    }
}

/// The key of a display is made of the two names that stand behind the word
/// DISPLAY in its path, whichever case that is in and whatever comes behind.
pub proof fn law_a_key_is_made_of_the_names_in_the_path(
    word: Seq<char>,
    hardware: Seq<char>,
    instance: Seq<char>,
    rest: Seq<char>,
)
    requires
        spelled_alike(word, "DISPLAY"@),
        safe_component(hardware) && safe_component(instance),
        !hardware.contains('#') && !instance.contains('#'),
    ensures
        parameters_key(
            seq!['\\', '\\', '?', '\\'] + (word + seq!['#'] + hardware + seq!['#'] + instance + seq![
                '#',
            ] + rest),
        ) == Some(
            "SYSTEM\\CurrentControlSet\\Enum\\DISPLAY\\"@ + hardware + "\\"@ + instance
                + "\\Device Parameters"@,
        ),
{
    let body = word + seq!['#'] + hardware + seq!['#'] + instance + seq!['#'] + rest;
    let path = seq!['\\', '\\', '?', '\\'] + body;
    reveal_strlit("\\\\?\\");
    reveal_strlit("\\\\.\\");
    reveal_strlit("DISPLAY");
    let first = "\\\\?\\"@;
    let second = "\\\\.\\"@;
    assert(first =~= seq!['\\', '\\', '?', '\\']);
    assert(same_letter(word[0], "DISPLAY"@[0]));
    assert(body[0] == word[0]);
    assert(body[0] != '\\');
    assert(path.subrange(0, 4) =~= first);
    assert(path.skip(4) =~= body);
    if first.is_prefix_of(body) {
        assert(body.subrange(0, 4)[0] == body[0]);
    }
    if second.is_prefix_of(body) {
        assert(body.subrange(0, 4)[0] == body[0]);
        assert(second[0] == '\\');
    }
    assert(without_leading(body, first) == body);
    assert(without_leading(path, first) == body);
    assert(without_leading(body, second) == body);
    assert forall|i: int| 0 <= i < word.len() implies word[i] != '#' by {
        assert(same_letter(word[i], "DISPLAY"@[i]));
        lemma_display_has_no_sign(i);
    }
    let three = word + seq!['#'] + hardware + seq!['#'] + instance;
    law_a_text_splits_at_a_separator(three, '#', rest);
    law_a_text_splits_at_a_separator(word + seq!['#'] + hardware, '#', instance);
    law_a_text_splits_at_a_separator(word, '#', hardware);
    law_a_text_without_separator_is_whole(word, '#');
    law_a_text_without_separator_is_whole(hardware, '#');
    law_a_text_without_separator_is_whole(instance, '#');
    lemma_split_on_nonempty(rest, '#');
    let parts = split_on(body, '#');
    assert(parts =~= seq![word, hardware, instance] + split_on(rest, '#'));
    law_nothing_but_case_is_ignored(word, "DISPLAY"@);
}

proof fn lemma_display_has_no_sign(i: int)
    requires
        0 <= i < "DISPLAY"@.len(),
    ensures
        'A' <= "DISPLAY"@[i] <= 'Z',
{
    reveal_strlit("DISPLAY");
}

} // verus!

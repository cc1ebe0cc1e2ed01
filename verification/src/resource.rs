//! The script that gives a Windows program its icon and the name Windows shows
//! for it.

use vstd::prelude::*;

use crate::digits::{
    all_digits, dec, decimal, digit_worth, law_digits_are_read_for_their_worth, parse_unsigned,
    unsigned_value, worth,
};
use crate::text::{
    cat5, cat7, chars_of, law_a_character_is_replaced_everywhere, law_a_text_splits_at_a_separator,
    law_a_text_without_separator_is_whole, replace, replaced, split_char, split_on,
};

verus! {

/// A version with every separator it may use written as a dot.
pub open spec fn dotted(version: Seq<char>) -> Seq<char> {
    version.map_values(
        |c: char|
            if c == '-' || c == '+' {
                '.'
            } else {
                c
            },
    )
}

/// Part `i` of a version as a number; 0 where the part is missing or is no
/// number of 16 bits.
pub open spec fn version_number(version: Seq<char>, i: int) -> nat {
    let parts = split_on(dotted(version), '.');
    if i < parts.len() {
        match unsigned_value(parts[i], 10, 0xFFFF) {
            Ok(n) => n,
            Err(_) => 0,
        }
    } else {
        0
    }
}

/// Major, minor and patch, as a resource script lists them.
pub open spec fn version_list(version: Seq<char>) -> Seq<char> {
    decimal(version_number(version, 0)) + ","@ + decimal(version_number(version, 1)) + ","@
        + decimal(version_number(version, 2))
}

fn number_at(parts: &Vec<&[char]>, i: usize) -> (r: u64)
    ensures
        r == if i < parts@.len() {
            match unsigned_value(parts@[i as int]@, 10, 0xFFFF) {
                Ok(n) => n,
                Err(_) => 0,
            }
        } else {
            0
        },
{
    if i < parts.len() {
        match parse_unsigned(parts[i], 10, 0xFFFF) {
            Ok(n) => n as u64,
            Err(_) => 0,
        }
    } else {
        0
    }
}

pub fn version_numbers(version: &str) -> (r: String)
    ensures
        r@ == version_list(version@),
{
    let mut cs = chars_of(version);
    let end: usize = cs.len();
    let mut i: usize = 0;
    while i < end
        invariant
            i <= end,
            end == cs@.len(),
            cs@.len() == version@.len(),
            forall|j: int| 0 <= j < i ==> #[trigger] cs@[j] == dotted(version@)[j],
            forall|j: int| i <= j < end ==> #[trigger] cs@[j] == version@[j],
        decreases end - i,
    {
        if cs[i] == '-' || cs[i] == '+' {
            cs.set(i, '.');
        }
        i += 1;
    }
    assert(cs@ =~= dotted(version@));
    let parts = split_char(cs.as_slice(), '.');
    let ghost want = split_on(dotted(version@), '.');
    assert(forall|k: int| 0 <= k < want.len() ==> #[trigger] parts@[k]@ == want[k]) by {
        assert forall|k: int| 0 <= k < want.len() implies #[trigger] parts@[k]@ == want[k] by {
            assert(crate::text::pieces(parts@)[k] == parts@[k]@);
        }
    }
    let major = dec(number_at(&parts, 0));
    let minor = dec(number_at(&parts, 1));
    let patch = dec(number_at(&parts, 2));
    cat5(major.as_str(), ",", minor.as_str(), ",", patch.as_str())
}

/// A text as it stands between quotes in a resource script.
pub open spec fn script_text(s: Seq<char>) -> Seq<char> {
    replaced(s, '"', "\"\""@)
}

/// The script: the icon, with the backslashes of its path doubled because the
/// script takes one as an escape, and the program's version and description.
pub open spec fn script_of(
    icon: Seq<char>,
    description: Seq<char>,
    version: Seq<char>,
) -> Seq<char> {
    "1 ICON \""@ + replaced(icon, '\\', "\\\\"@) + "\"\n\n1 VERSIONINFO\nFILEVERSION "@
        + version_list(version) + ",0\nPRODUCTVERSION "@ + version_list(version)
        + ",0\nBEGIN\n  BLOCK \"StringFileInfo\"\n  BEGIN\n    BLOCK \"040904B0\"\n    BEGIN\n      VALUE \"FileDescription\", \""@
        + script_text(description)
        + "\"\n      VALUE \"ProductName\", \"Desktop Switcher\"\n      VALUE \"FileVersion\", \""@
        + script_text(version) + "\"\n      VALUE \"ProductVersion\", \""@ + script_text(version)
        + "\"\n    END\n  END\n  BLOCK \"VarFileInfo\"\n  BEGIN\n    VALUE \"Translation\", 0x409, 1200\n  END\nEND\n"@
}

/// The resource script for a program.
pub fn resource_script(icon: &str, description: &str, version: &str) -> (r: String)
    ensures
        r@ == script_of(icon@, description@, version@),
{
    let path = replace(icon, '\\', "\\\\");
    let numbers = version_numbers(version);
    let what = replace(description, '"', "\"\"");
    let which = replace(version, '"', "\"\"");
    let head = cat7(
        "1 ICON \"",
        path.as_str(),
        "\"\n\n1 VERSIONINFO\nFILEVERSION ",
        numbers.as_str(),
        ",0\nPRODUCTVERSION ",
        numbers.as_str(),
        ",0\nBEGIN\n  BLOCK \"StringFileInfo\"\n  BEGIN\n    BLOCK \"040904B0\"\n    BEGIN\n      VALUE \"FileDescription\", \"",
    );
    cat7(
        head.as_str(),
        what.as_str(),
        "\"\n      VALUE \"ProductName\", \"Desktop Switcher\"\n      VALUE \"FileVersion\", \"",
        which.as_str(),
        "\"\n      VALUE \"ProductVersion\", \"",
        which.as_str(),
        "\"\n    END\n  END\n  BLOCK \"VarFileInfo\"\n  BEGIN\n    VALUE \"Translation\", 0x409, 1200\n  END\nEND\n",
    )
}

/// The numbers of a version are those between its dots, as far as they go; what
/// stands behind a hyphen or a plus sign counts as one more part.
pub proof fn law_a_version_is_its_numbers(a: Seq<char>, b: Seq<char>, c: Seq<char>)
    requires
        a.len() > 0 && b.len() > 0 && c.len() > 0,
        all_digits(a, 10) && all_digits(b, 10) && all_digits(c, 10),
        worth(a, 10) <= 0xFFFF && worth(b, 10) <= 0xFFFF && worth(c, 10) <= 0xFFFF,
    ensures
        ({
            let version = a + seq!['.'] + b + seq!['.'] + c;
            &&& version_number(version, 0) == worth(a, 10)
            &&& version_number(version, 1) == worth(b, 10)
            &&& version_number(version, 2) == worth(c, 10)
            &&& version_list(version) == decimal(worth(a, 10) as nat) + seq![','] + decimal(
                worth(b, 10) as nat,
            ) + seq![','] + decimal(worth(c, 10) as nat)
        }),
{
    let version = a + seq!['.'] + b + seq!['.'] + c;
    lemma_no_dots(a);
    lemma_no_dots(b);
    lemma_no_dots(c);
    assert(dotted(version) =~= version) by {
        assert forall|i: int| 0 <= i < version.len() implies dotted(version)[i] == version[i] by {
            let n = a.len() as int;
            let m = b.len() as int;
            if i < n {
                assert(version[i] == a[i]);
            } else if n < i < n + 1 + m {
                assert(version[i] == b[i - n - 1]);
            } else if i > n + 1 + m {
                assert(version[i] == c[i - n - m - 2]);
            }
        }
    }
    law_a_text_splits_at_a_separator(a + seq!['.'] + b, '.', c);
    law_a_text_splits_at_a_separator(a, '.', b);
    law_a_text_without_separator_is_whole(a, '.');
    law_a_text_without_separator_is_whole(b, '.');
    law_a_text_without_separator_is_whole(c, '.');
    assert(split_on(version, '.') =~= seq![a, b, c]);
    law_digits_are_read_for_their_worth(a, 10, 0xFFFF);
    law_digits_are_read_for_their_worth(b, 10, 0xFFFF);
    law_digits_are_read_for_their_worth(c, 10, 0xFFFF);
    reveal_strlit(",");
    assert(","@ =~= seq![',']);
}

proof fn lemma_no_dots(s: Seq<char>)
    requires
        s.len() > 0,
        all_digits(s, 10),
    ensures
        !s.contains('.'),
        s[0] != '+',
        forall|i: int| 0 <= i < s.len() ==> #[trigger] s[i] != '-' && s[i] != '+',
{
    assert forall|i: int| 0 <= i < s.len() implies #[trigger] s[i] != '-' && s[i] != '+' && s[i]
        != '.' by {
        assert(0 <= digit_worth(s[i]) < 10);
    }
}

/// A quotation mark stands twice inside a quoted text of the script.
pub proof fn law_quotation_marks_stand_twice(a: Seq<char>, b: Seq<char>)
    ensures
        script_text(a + seq!['"'] + b) == script_text(a) + seq!['"', '"'] + script_text(b),
        !a.contains('"') ==> script_text(a) == a,
{
    reveal_strlit("\"\"");
    assert("\"\""@ =~= seq!['"', '"']);
    law_a_character_is_replaced_everywhere(a, '"', b, "\"\""@);
}

} // verus!

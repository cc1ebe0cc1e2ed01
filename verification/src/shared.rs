//! How a configuration that cannot be read is told in a menu.

use vstd::prelude::*;

use crate::config::{ConfigError, ConfigErrorView};

use crate::text::{cat2, first_chars, take_chars};

verus! {

/// Why there is no configuration, in a line that fits a menu.
pub open spec fn problem_text(e: ConfigErrorView) -> Seq<char> {
    match e {
        ConfigErrorView::Missing(_) => "No configuration yet"@,
        _ => first_chars("Configuration problem: "@ + e.message(), 80),
    }
}

/// A short reason a configuration could not be read, fit to show as a menu
/// line.
pub fn problem_line(e: &ConfigError) -> (r: String)
    ensures
        r@ == problem_text(e.deep_view()),
{
    match e {
        ConfigError::Missing(_) => "No configuration yet".to_owned(),
        _ => take_chars(cat2("Configuration problem: ", e.to_string().as_str()).as_str(), 80),
    }
}

/// A configuration that is missing is told as such; any other problem is told
/// from its beginning, as far as eighty characters go.
pub proof fn law_a_problem_is_told_from_its_beginning(e: ConfigErrorView)
    ensures
        e is Missing ==> problem_text(e) == "No configuration yet"@,
        e !is Missing ==> problem_text(e).len() <= 80 && problem_text(e).is_prefix_of(
            "Configuration problem: "@ + e.message(),
        ),
        e !is Missing && ("Configuration problem: "@ + e.message()).len() <= 80 ==> problem_text(e)
            == "Configuration problem: "@ + e.message(),
{
    let all = "Configuration problem: "@ + e.message();
    if e !is Missing {
        assert(all.subrange(0, problem_text(e).len() as int) =~= problem_text(e));
    }
}

} // verus!

//! Where this application keeps its files.

use vstd::prelude::*;

use crate::config::{ConfigError, ConfigErrorView};
use crate::text::has_text;

verus! {

// ---------------------------------------------------------------------------
// Joining
// ---------------------------------------------------------------------------

/// A path of Windows' own kind that is taken as it stands. What is joined to
/// one is normalised as a whole.
pub open spec fn verbatim(dir: Seq<char>) -> bool {
    "\\\\?\\"@.is_prefix_of(dir)
}

/// A directory's path behind which a name may follow at once: it is empty, or
/// ends in a separator or in a drive.
pub open spec fn open_ended(dir: Seq<char>) -> bool {
    dir.len() == 0 || dir.last() == '/' || dir.last() == '\\' || dir.last() == ':'
}

/// A path is a directory's with one name behind it. A separator stands between
/// them; only a directory's path that needs none may go without. Of a directory
/// with a verbatim path only the end is told.
pub open spec fn joins(path: Seq<char>, dir: Seq<char>, name: Seq<char>) -> bool {
    if verbatim(dir) {
        name.is_suffix_of(path)
    } else {
        ||| open_ended(dir) && path == dir + name
        ||| path == dir + "/"@ + name
        ||| path == dir + "\\"@ + name
    }
}

/// A path two steps below a directory.
pub open spec fn joins_two(path: Seq<char>, dir: Seq<char>, a: Seq<char>, b: Seq<char>) -> bool {
    exists|mid: Seq<char>| #[trigger] joins(mid, dir, a) && joins(path, mid, b)
}

/// One name of a file or a directory: it holds no separator and no drive, and
/// is neither of the two that stand for another directory.
pub open spec fn relative_name(name: Seq<char>) -> bool {
    &&& name.len() > 0
    &&& !name.contains('/')
    &&& !name.contains('\\')
    &&& !name.contains(':')
    &&& name != "."@
    &&& name != ".."@
}

/// Calls `std::path::Path::join`. Where `name` is one name, it comes to stand
/// behind the directory's path, with a separator between them unless that path
/// is empty, ends in a separator or is a drive alone. Which separator it is
/// depends on the platform and is not told here. Behind a verbatim path the name
/// comes to stand too, but the rest may be written anew. Anything but one name
/// may take the directory's place, and nothing is told of it.
#[verifier::external_body]
pub(crate) fn join_path(dir: &str, name: &str) -> (r: String)
    ensures
        relative_name(name@) ==> joins(r@, dir@, name@),
{
    std::path::Path::new(dir).join(name).to_string_lossy().into_owned()
}

/// Whatever the directory, a path joined from it ends in the name.
pub proof fn law_joined_paths_end_in_the_name(path: Seq<char>, dir: Seq<char>, name: Seq<char>)
    requires
        joins(path, dir, name),
    ensures
        name.is_suffix_of(path),
{
    assert(name =~= path.subrange(path.len() - name.len(), path.len() as int));
}

// ---------------------------------------------------------------------------
// Directories
// ---------------------------------------------------------------------------

/// What this application's directories are named after.
const APPLICATION: &'static str = "desktop-switcher";

/// Calls `directories::ProjectDirs::from` for an application and takes
/// `config_dir` and `data_local_dir`. Each is a directory of the user's own with
/// one named after the application below it. Which directory of the user's it
/// is depends on the user and the machine and is not told here, nor is when
/// there is none: that is where no home directory can be told. What is not
/// Unicode in a path is told with replacement characters.
#[verifier::external_body]
fn project_dirs(application: &str) -> (r: Option<(String, String)>)
    requires
        application@ == "desktop-switcher"@,
    ensures
        r matches Some((config, state)) ==> has_text(config@, application@) && has_text(
            state@,
            application@,
        ),
{
    directories::ProjectDirs::from("", "", application).map(
        |d|
            (
                d.config_dir().to_string_lossy().into_owned(),
                d.data_local_dir().to_string_lossy().into_owned(),
            ),
    )
}

/// The configuration's directory among the two that were told, or the error
/// that there is none.
pub fn config_of(dirs: Option<(String, String)>) -> (r: Result<String, ConfigError>)
    ensures
        match r {
            Ok(d) => dirs matches Some((config, _)) && d@ == config@,
            Err(e) => dirs is None && e.deep_view() == ConfigErrorView::NoConfigDir,
        },
{
    match dirs {
        Some((config, _)) => Ok(config),
        None => Err(ConfigError::NoConfigDir),
    }
}

/// The directory of what is kept between runs among the two that were told, or
/// the error that there is none.
pub fn state_of(dirs: Option<(String, String)>) -> (r: Result<String, ConfigError>)
    ensures
        match r {
            Ok(d) => dirs matches Some((_, state)) && d@ == state@,
            Err(e) => dirs is None && e.deep_view() == ConfigErrorView::NoConfigDir,
        },
{
    match dirs {
        Some((_, state)) => Ok(state),
        None => Err(ConfigError::NoConfigDir),
    }
}

/// The configuration file in a directory, or the error that there is none.
pub fn config_path_in(dir: Result<String, ConfigError>) -> (r: Result<String, ConfigError>)
    ensures
        match (dir, r) {
            (Ok(d), Ok(p)) => joins(p@, d@, "config.toml"@) && "config.toml"@.is_suffix_of(p@),
            (Err(e), Err(f)) => e.deep_view() == f.deep_view(),
            _ => false,
        },
{
    match dir {
        Ok(d) => {
            proof {
                reveal_strlit(".");
                reveal_strlit("..");
                reveal_strlit("config.toml");
            }
            let path = join_path(d.as_str(), "config.toml");
            proof {
                law_joined_paths_end_in_the_name(path@, d@, "config.toml"@);
            }
            Ok(path)
        },
        Err(e) => Err(e),
    }
}

/// Per-user config directory for this application.
pub fn config_dir() -> (r: Result<String, ConfigError>)
    ensures
        match r {
            Ok(d) => has_text(d@, "desktop-switcher"@),
            Err(e) => e.deep_view() == ConfigErrorView::NoConfigDir,
        },
{
    config_of(project_dirs(APPLICATION))
}

/// A path is that of the configuration in a directory of this application.
pub open spec fn own_config(path: Seq<char>) -> bool {
    exists|dir: Seq<char>|
        has_text(dir, "desktop-switcher"@) && #[trigger] joins(path, dir, "config.toml"@)
}

/// The configuration file that is read unless another is named.
pub fn default_config_path() -> (r: Result<String, ConfigError>)
    ensures
        match r {
            Ok(p) => own_config(p@) && "config.toml"@.is_suffix_of(p@),
            Err(e) => e.deep_view() == ConfigErrorView::NoConfigDir,
        },
{
    config_path_in(config_dir())
}

/// Per-user directory for the log, the lock and the last request.
pub fn default_state_dir() -> (r: Result<String, ConfigError>)
    ensures
        match r {
            Ok(d) => has_text(d@, "desktop-switcher"@),
            Err(e) => e.deep_view() == ConfigErrorView::NoConfigDir,
        },
{
    state_of(project_dirs(APPLICATION))
}

} // verus!

//! Where the program keeps its data.

use std::path::PathBuf;
use vstd::prelude::*;

verus! {

/// Set by the user to the directory of the program's data.
pub const RUNTIME_DIR_VARIABLE: &'static str = "FFF_SHELL_WIDGET_RUNTIME_DIR";

/// The older name of the same setting.
pub const OLD_RUNTIME_DIR_VARIABLE: &'static str = "FFF_CTRL_T_RUNTIME_DIR";

/// The directory of the program's data, under the user's home.
pub const RUNTIME_SUBDIR: &'static str = ".local/share/fff-shell-widget";

/// The directory of the program's caches, under the user's cache directory.
pub const CACHE_SUBDIR: &'static str = "fff-shell-widget";

/// The directory of the program's caches where the user has no cache directory.
pub const LOCAL_CACHE_DIR: &'static str = ".cache/fff-shell-widget";

/// The directory of the program's data: as set, as set under the older name,
/// under the user's home, or the current one.
pub fn runtime_dir(
    setting: Option<PathBuf>,
    old_setting: Option<PathBuf>,
    under_home: Option<PathBuf>,
    current: PathBuf,
) -> (r: PathBuf)
    ensures
        r == (match (setting, old_setting, under_home) {
            (Some(path), _, _) => path,
            (None, Some(path), _) => path,
            (None, None, Some(path)) => path,
            (None, None, None) => current,
        }),
{
    match setting {
        Some(path) => path,
        None => match old_setting {
            Some(path) => path,
            None => match under_home {
                Some(path) => path,
                None => current,
            },
        },
    }
}

/// The directory of the program's caches: under the user's cache directory, or
/// under the current one.
pub fn cache_dir(under_cache: Option<PathBuf>, local: PathBuf) -> (r: PathBuf)
    ensures
        r == (match under_cache {
            Some(path) => path,
            None => local,
        }),
{
    match under_cache {
        Some(path) => path,
        None => local,
    }
}

/// The history file: as set, under the user's home, or in the current
/// directory.
pub fn history_file(
    setting: Option<PathBuf>,
    under_home: Option<PathBuf>,
    local: PathBuf,
) -> (r: PathBuf)
    ensures
        r == (match (setting, under_home) {
            (Some(path), _) => path,
            (None, Some(path)) => path,
            (None, None) => local,
        }),
{
    match setting {
        Some(path) => path,
        None => match under_home {
            Some(path) => path,
            None => local,
        },
    }
}

/// The directory of the program's data is the first that there is: the one that
/// is set, the one set under the older name, the one under the user's home, and
/// else the current one.
pub proof fn law_runtime_dir_is_the_first_there_is(
    setting: Option<PathBuf>,
    old_setting: Option<PathBuf>,
    under_home: Option<PathBuf>,
    current: PathBuf,
    r: PathBuf,
)
    requires
        call_ensures(runtime_dir, (setting, old_setting, under_home, current), r),
    ensures
        setting is Some ==> setting == Some(r),
        setting is None && old_setting is Some ==> old_setting == Some(r),
        setting is None && old_setting is None && under_home is Some ==> under_home == Some(r),
        setting is None && old_setting is None && under_home is None ==> r == current,
{
}

/// So are the directory of its caches and the history file.
pub proof fn law_other_places_are_the_first_there_is(
    setting: Option<PathBuf>,
    under_user: Option<PathBuf>,
    local: PathBuf,
    cache: PathBuf,
    file: PathBuf,
)
    requires
        call_ensures(cache_dir, (under_user, local), cache),
        call_ensures(history_file, (setting, under_user, local), file),
    ensures
        under_user is Some ==> under_user == Some(cache),
        under_user is None ==> cache == local,
        setting is Some ==> setting == Some(file),
        setting is None && under_user is Some ==> under_user == Some(file),
        setting is None && under_user is None ==> file == local,
{
}

} // verus!

//! Locating configuration files: what a configuration path lacks.
use vstd::prelude::*;

use crate::error_handling::ConfigError;

verus! {

/// The part of a configuration path that does not exist yet.
#[derive(Debug, PartialEq, Eq, Structural)]
pub enum MissingConfig {
    Directory,
    File,
}

/// What the file system showed of a configuration path when it was checked.
pub struct ConfigPath {
    /// The path as `{:?}` shows it.
    pub debug_text: String,
    /// The path as `Path::display` shows it.
    pub display_text: String,
    /// The parent directory as `{:?}` shows it, where the path has a parent.
    pub parent_debug_text: Option<String>,
    /// Whether the parent is an existing directory.
    pub parent_is_dir: bool,
    /// Whether the path is an existing file.
    pub is_file: bool,
}

pub open spec fn no_parent_message(path_debug: Seq<char>) -> Seq<char> {
    "failed to determine config directory from path: "@ + path_debug
}

pub open spec fn no_config_home_message() -> Seq<char> {
    "unable to find the users xdg config home"@
}

/// What is missing of a path whose parent exists or not and is a file or not.
pub open spec fn missing_part(parent_is_dir: bool, is_file: bool) -> Option<MissingConfig> {
    if !parent_is_dir {
        Some(MissingConfig::Directory)
    } else if !is_file {
        Some(MissingConfig::File)
    } else {
        None
    }
}

/// Finds what is missing of a configuration path: its directory, its file, or
/// nothing. A path without a parent is an error.
pub fn validate_config_path(path: &ConfigPath) -> (r: Result<Option<MissingConfig>, ConfigError>)
    ensures
        path.parent_debug_text is None ==> (r matches Err(e) && e@ == no_parent_message(path.debug_text@)),
        path.parent_debug_text is Some ==> r == Ok::<Option<MissingConfig>, ConfigError>(
            missing_part(path.parent_is_dir, path.is_file),
        ),
{
    if path.parent_debug_text.is_none() {
        let message = String::from_str("failed to determine config directory from path: ").concat(
            path.debug_text.as_str(),
        );
        return Err(ConfigError::new(message));
    }
    if !path.parent_is_dir {
        return Ok(Some(MissingConfig::Directory));
    }
    if !path.is_file {
        return Ok(Some(MissingConfig::File));
    }
    Ok(None)
}

/// The user's configuration home, or the error for its absence.
pub fn config_home_or_error<P>(home: Option<P>) -> (r: Result<P, ConfigError>)
    ensures
        match home {
            Some(p) => (r matches Ok(q) && q == p),
            None => (r matches Err(e) && e@ == no_config_home_message()),
        },
{
    match home {
        Some(p) => Ok(p),
        None => Err(ConfigError::new(String::from_str("unable to find the users xdg config home"))),
    }
}

} // verus!

use vstd::prelude::*;

use crate::error_handling::ConfigError;
use crate::private::Comment;

pub mod config_generation;
pub mod config_locating;

verus! {

/// Provides configuration file creation and loading for a type.
///
/// This trait is normally implemented by the `Config` derive.
pub trait Config: Sized {
    /// Loads an existing configuration file from the user's XDG config directory.
    fn load() -> Result<Self, ConfigError>;

    /// The inline comments of the configuration file, keyed by field.
    fn comments() -> Vec<Comment>;

    /// Generates the contents of a new configuration file from the default values.
    fn generate_config_file() -> Result<String, ConfigError>;

    /// Loads the configuration file if it exists, otherwise generates one first.
    fn init() -> Result<Self, ConfigError>;
}

} // verus!

use config_locating::{ConfigPath, MissingConfig};

verus! {

/// What the outside work of `init` or `load` reported back.
pub enum ConfigEvent {
    /// The configuration path was checked with `validate_config_path`.
    Validated(Result<Option<MissingConfig>, ConfigError>),
    /// The configuration directory was created, or the text of the error.
    DirectoryCreated(Result<(), String>),
    /// The contents of a new configuration file were generated.
    Generated(Result<String, ConfigError>),
    /// The new configuration file was written, or the text of the error.
    FileWritten(Result<(), String>),
    /// The configuration file was read, or the text of the error.
    FileRead(Result<String, String>),
    /// The text read was deserialized into the configuration type, or the
    /// text of the error.
    Deserialized(Result<(), String>),
}

/// The outside work that `init` or `load` does next.
pub enum ConfigAction {
    /// Create the parent directory of the configuration path.
    CreateDirectory,
    /// Generate the contents of a new configuration file.
    GenerateFile,
    /// Write these contents to the configuration path.
    WriteFile(String),
    /// Read the configuration file.
    ReadFile,
    /// Deserialize this text into the configuration type.
    Deserialize(String),
    /// The deserialized configuration is the result.
    Finish,
    /// Stop with this error.
    Fail(ConfigError),
}

/// The action is a failure with the given message.
pub open spec fn fails_with(action: ConfigAction, message: Seq<char>) -> bool {
    action matches ConfigAction::Fail(e) && e@ == message
}

pub open spec fn create_directory_failed_message(dir_debug: Seq<char>, cause: Seq<char>) -> Seq<char> {
    "failed to create new config directory '"@ + dir_debug + "': "@ + cause
}

pub open spec fn write_failed_message(path_debug: Seq<char>, cause: Seq<char>) -> Seq<char> {
    "failed to write new config file to '"@ + path_debug + "': "@ + cause
}

pub open spec fn read_failed_message(path_display: Seq<char>, cause: Seq<char>) -> Seq<char> {
    "failed to read config file "@ + path_display + ": "@ + cause
}

pub open spec fn deserialize_failed_message(path_display: Seq<char>, cause: Seq<char>) -> Seq<char> {
    "failed to deserialize config file "@ + path_display + ": "@ + cause
}

pub open spec fn missing_directory_message(dir_name: Seq<char>) -> Seq<char> {
    "unable to find directory '"@ + dir_name + "' within xdg config home"@
}

pub open spec fn missing_file_message(dir_name: Seq<char>, file_name: Seq<char>) -> Seq<char> {
    "unable to find file '"@ + file_name + "' within '"@ + dir_name + "'"@
}

/// What reading an existing configuration file does next: after a read, the
/// text is deserialized; after deserializing, the work is done.
pub open spec fn read_step_spec(path: ConfigPath, event: ConfigEvent, action: ConfigAction) -> bool {
    match event {
        ConfigEvent::FileRead(Ok(text)) => action matches ConfigAction::Deserialize(t) && t@ == text@,
        ConfigEvent::FileRead(Err(cause)) => fails_with(action, read_failed_message(path.display_text@, cause@)),
        ConfigEvent::Deserialized(Ok(())) => action is Finish,
        ConfigEvent::Deserialized(Err(cause)) => fails_with(
            action,
            deserialize_failed_message(path.display_text@, cause@),
        ),
        _ => false,
    }
}

fn join3(a: &str, b: &str, c: &str) -> (s: String)
    ensures
        s@ == a@ + b@ + c@,
{
    String::from_str(a).concat(b).concat(c)
}

fn join4(a: &str, b: &str, c: &str, d: &str) -> (s: String)
    ensures
        s@ == a@ + b@ + c@ + d@,
{
    String::from_str(a).concat(b).concat(c).concat(d)
}

/// The step shared by `init` and `load` once the file exists: deserialize what
/// was read, then finish.
fn read_step(path: &ConfigPath, event: ConfigEvent) -> (action: ConfigAction)
    requires
        event is FileRead || event is Deserialized,
    ensures
        read_step_spec(*path, event, action),
{
    match event {
        ConfigEvent::FileRead(Ok(text)) => ConfigAction::Deserialize(text),
        ConfigEvent::FileRead(Err(cause)) => ConfigAction::Fail(
            ConfigError::new(join4("failed to read config file ", path.display_text.as_str(), ": ", cause.as_str())),
        ),
        ConfigEvent::Deserialized(Ok(())) => ConfigAction::Finish,
        ConfigEvent::Deserialized(Err(cause)) => ConfigAction::Fail(
            ConfigError::new(
                join4("failed to deserialize config file ", path.display_text.as_str(), ": ", cause.as_str()),
            ),
        ),
        _ => ConfigAction::Finish,
    }
}

/// The decisions of `init`: given what the last piece of outside work reported,
/// what to do next. A missing directory is created, a missing file generated and
/// written, and the file is then read and deserialized.
pub fn init_step(path: &ConfigPath, event: ConfigEvent) -> (action: ConfigAction)
    ensures
        match event {
            ConfigEvent::Validated(Err(e)) => fails_with(action, e@),
            ConfigEvent::Validated(Ok(None)) => action is ReadFile,
            ConfigEvent::Validated(Ok(Some(MissingConfig::Directory))) => match path.parent_debug_text {
                Some(_) => action is CreateDirectory,
                None => fails_with(action, config_locating::no_parent_message(path.debug_text@)),
            },
            ConfigEvent::Validated(Ok(Some(MissingConfig::File))) => action is GenerateFile,
            ConfigEvent::DirectoryCreated(Ok(())) => action is GenerateFile,
            ConfigEvent::DirectoryCreated(Err(cause)) => match path.parent_debug_text {
                Some(dir) => fails_with(action, create_directory_failed_message(dir@, cause@)),
                None => fails_with(action, config_locating::no_parent_message(path.debug_text@)),
            },
            ConfigEvent::Generated(Ok(text)) => (action matches ConfigAction::WriteFile(t) && t@ == text@),
            ConfigEvent::Generated(Err(e)) => fails_with(action, e@),
            ConfigEvent::FileWritten(Ok(())) => action is ReadFile,
            ConfigEvent::FileWritten(Err(cause)) => fails_with(
                action,
                write_failed_message(path.debug_text@, cause@),
            ),
            _ => read_step_spec(*path, event, action),
        },
{
    match event {
        ConfigEvent::Validated(Err(e)) => ConfigAction::Fail(e),
        ConfigEvent::Validated(Ok(None)) => ConfigAction::ReadFile,
        ConfigEvent::Validated(Ok(Some(MissingConfig::Directory))) => match &path.parent_debug_text {
            Some(_) => ConfigAction::CreateDirectory,
            None => ConfigAction::Fail(
                ConfigError::new(
                    String::from_str("failed to determine config directory from path: ").concat(
                        path.debug_text.as_str(),
                    ),
                ),
            ),
        },
        ConfigEvent::Validated(Ok(Some(MissingConfig::File))) => ConfigAction::GenerateFile,
        ConfigEvent::DirectoryCreated(Ok(())) => ConfigAction::GenerateFile,
        ConfigEvent::DirectoryCreated(Err(cause)) => match &path.parent_debug_text {
            Some(dir) => ConfigAction::Fail(
                ConfigError::new(
                    join4("failed to create new config directory '", dir.as_str(), "': ", cause.as_str()),
                ),
            ),
            None => ConfigAction::Fail(
                ConfigError::new(
                    String::from_str("failed to determine config directory from path: ").concat(
                        path.debug_text.as_str(),
                    ),
                ),
            ),
        },
        ConfigEvent::Generated(Ok(text)) => ConfigAction::WriteFile(text),
        ConfigEvent::Generated(Err(e)) => ConfigAction::Fail(e),
        ConfigEvent::FileWritten(Ok(())) => ConfigAction::ReadFile,
        ConfigEvent::FileWritten(Err(cause)) => ConfigAction::Fail(
            ConfigError::new(
                join4("failed to write new config file to '", path.debug_text.as_str(), "': ", cause.as_str()),
            ),
        ),
        other => read_step(path, other),
    }
}

/// The decisions of `load`: a configuration whose directory or file is missing
/// is an error naming what is missing; an existing file is read and deserialized.
pub fn load_step(path: &ConfigPath, dir_name: &str, file_name: &str, event: ConfigEvent) -> (action: ConfigAction)
    requires
        event is Validated || event is FileRead || event is Deserialized,
    ensures
        match event {
            ConfigEvent::Validated(Err(e)) => fails_with(action, e@),
            ConfigEvent::Validated(Ok(None)) => action is ReadFile,
            ConfigEvent::Validated(Ok(Some(MissingConfig::Directory))) => fails_with(
                action,
                missing_directory_message(dir_name@),
            ),
            ConfigEvent::Validated(Ok(Some(MissingConfig::File))) => fails_with(
                action,
                missing_file_message(dir_name@, file_name@),
            ),
            _ => read_step_spec(*path, event, action),
        },
{
    match event {
        ConfigEvent::Validated(Err(e)) => ConfigAction::Fail(e),
        ConfigEvent::Validated(Ok(None)) => ConfigAction::ReadFile,
        ConfigEvent::Validated(Ok(Some(MissingConfig::Directory))) => ConfigAction::Fail(
            ConfigError::new(join3("unable to find directory '", dir_name, "' within xdg config home")),
        ),
        ConfigEvent::Validated(Ok(Some(MissingConfig::File))) => ConfigAction::Fail(
            ConfigError::new(
                join4("unable to find file '", file_name, "' within '", dir_name).concat("'"),
            ),
        ),
        other => read_step(path, other),
    }
}

} // verus!

use confkit::config_file;
use confkit::config_file::config_locating::{ConfigPath, MissingConfig};
use confkit::config_file::{ConfigAction, ConfigEvent};
use confkit::error_handling::ConfigError;

fn test_path(parent_is_dir: bool, is_file: bool) -> ConfigPath {
    ConfigPath {
        debug_text: "\"/tmp/home/test_dir/test_config.toml\"".to_string(),
        display_text: "/tmp/home/test_dir/test_config.toml".to_string(),
        parent_debug_text: Some("\"/tmp/home/test_dir\"".to_string()),
        parent_is_dir,
        is_file,
    }
}

fn fail_text(action: ConfigAction) -> String {
    match action {
        ConfigAction::Fail(e) => e.to_string(),
        _ => panic!("expected a failure"),
    }
}

#[test]
fn finds_existing_config() {
    let config_path = test_path(true, true);

    let result = config_file::config_locating::validate_config_path(
        &config_path
    ).unwrap();

    assert!(result.is_none());
}

#[test]
fn identifies_missing_config_file() {
    let config_path = test_path(true, false);

    let result = config_file::config_locating::validate_config_path(
        &config_path
    ).unwrap();

    assert!(matches!(result, Some(config_file::config_locating::MissingConfig::File)));
}

#[test]
fn identifies_missing_config_dir() {
    let config_path = test_path(false, false);

    let result = config_file::config_locating::validate_config_path(
        &config_path
    ).unwrap();

    assert!(matches!(result, Some(config_file::config_locating::MissingConfig::Directory)));
}

#[test]
fn correctly_errors_on_missing_file() {
    let path = test_path(true, false);
    let validated = config_file::config_locating::validate_config_path(&path);
    let action = config_file::load_step(&path, "teststruct", "config.toml", ConfigEvent::Validated(validated));

    assert!(matches!(action, ConfigAction::Fail(_)));

    let error_text = fail_text(action);

    assert_eq!(error_text, "Error: unable to find file 'config.toml' within 'teststruct'");
}

#[test]
fn correctly_errors_on_missing_dir() {
    let path = test_path(false, false);
    let validated = config_file::config_locating::validate_config_path(&path);
    let action = config_file::load_step(&path, "teststruct", "config.toml", ConfigEvent::Validated(validated));

    assert!(matches!(action, ConfigAction::Fail(_)));

    let error_text = fail_text(action);

    assert_eq!(error_text, "Error: unable to find directory 'teststruct' within xdg config home");
}

// ---------------------------------------------------------------------------

#[test]
fn path_without_parent_is_an_error() {
    let path = ConfigPath {
        debug_text: "\"/\"".to_string(),
        display_text: "/".to_string(),
        parent_debug_text: None,
        parent_is_dir: false,
        is_file: false,
    };
    let err = config_file::config_locating::validate_config_path(&path).unwrap_err();
    assert_eq!(err.to_string(), "Error: failed to determine config directory from path: \"/\"");
}

#[test]
fn missing_config_home_is_an_error() {
    let none: Option<String> = None;
    let err = config_file::config_locating::config_home_or_error(none).unwrap_err();
    assert_eq!(err.to_string(), "Error: unable to find the users xdg config home");
    let home = config_file::config_locating::config_home_or_error(Some(7u8)).unwrap();
    assert_eq!(home, 7);
}

#[test]
fn init_creates_directory_then_file_then_reads() {
    let path = test_path(false, false);
    let validated = config_file::config_locating::validate_config_path(&path);
    assert!(matches!(config_file::init_step(&path, ConfigEvent::Validated(validated)), ConfigAction::CreateDirectory));
    assert!(matches!(config_file::init_step(&path, ConfigEvent::DirectoryCreated(Ok(()))), ConfigAction::GenerateFile));
    match config_file::init_step(&path, ConfigEvent::Generated(Ok("a = 1\n".to_string()))) {
        ConfigAction::WriteFile(text) => assert_eq!(text, "a = 1\n"),
        _ => panic!("expected a write"),
    }
    assert!(matches!(config_file::init_step(&path, ConfigEvent::FileWritten(Ok(()))), ConfigAction::ReadFile));
    match config_file::init_step(&path, ConfigEvent::FileRead(Ok("a = 1\n".to_string()))) {
        ConfigAction::Deserialize(text) => assert_eq!(text, "a = 1\n"),
        _ => panic!("expected deserializing"),
    }
    assert!(matches!(config_file::init_step(&path, ConfigEvent::Deserialized(Ok(()))), ConfigAction::Finish));
}

#[test]
fn init_generates_when_only_the_file_is_missing() {
    let path = test_path(true, false);
    let validated = config_file::config_locating::validate_config_path(&path);
    assert!(matches!(config_file::init_step(&path, ConfigEvent::Validated(validated)), ConfigAction::GenerateFile));
}

#[test]
fn init_reads_an_existing_file() {
    let path = test_path(true, true);
    let validated = config_file::config_locating::validate_config_path(&path);
    assert!(matches!(config_file::init_step(&path, ConfigEvent::Validated(validated)), ConfigAction::ReadFile));
    assert!(matches!(config_file::load_step(&path, "d", "f", ConfigEvent::Validated(Ok(None))), ConfigAction::ReadFile));
}

#[test]
fn init_reports_outside_failures() {
    let path = test_path(false, false);
    assert_eq!(
        fail_text(config_file::init_step(&path, ConfigEvent::DirectoryCreated(Err("denied".to_string())))),
        "Error: failed to create new config directory '\"/tmp/home/test_dir\"': denied"
    );
    assert_eq!(
        fail_text(config_file::init_step(&path, ConfigEvent::FileWritten(Err("disk full".to_string())))),
        "Error: failed to write new config file to '\"/tmp/home/test_dir/test_config.toml\"': disk full"
    );
    assert_eq!(
        fail_text(config_file::init_step(&path, ConfigEvent::FileRead(Err("gone".to_string())))),
        "Error: failed to read config file /tmp/home/test_dir/test_config.toml: gone"
    );
    assert_eq!(
        fail_text(config_file::load_step(&path, "d", "f", ConfigEvent::Deserialized(Err("bad".to_string())))),
        "Error: failed to deserialize config file /tmp/home/test_dir/test_config.toml: bad"
    );
    assert_eq!(
        fail_text(config_file::init_step(&path, ConfigEvent::Generated(Err(ConfigError::new("x".to_string()))))),
        "Error: x"
    );
    assert_eq!(
        fail_text(config_file::init_step(&path, ConfigEvent::Validated(Err(ConfigError::new("y".to_string()))))),
        "Error: y"
    );
}

#[test]
fn missing_parent_when_creating_directory() {
    let path = ConfigPath {
        debug_text: "\"cfg\"".to_string(),
        display_text: "cfg".to_string(),
        parent_debug_text: None,
        parent_is_dir: false,
        is_file: false,
    };
    assert_eq!(
        fail_text(config_file::init_step(&path, ConfigEvent::Validated(Ok(Some(MissingConfig::Directory))))),
        "Error: failed to determine config directory from path: \"cfg\""
    );
}

#[test]
fn error_message_and_display_text() {
    let err = ConfigError::new("boom".to_string());
    assert_eq!(err.message(), "boom");
    assert_eq!(err.to_string(), "Error: boom");
}

//! Confkit: creating and loading TOML configuration files with minimal boilerplate.

pub mod config_file;
pub mod derive_attrs;
pub mod derive_input;
pub mod error_handling;
pub mod private;

pub use config_file::Config;

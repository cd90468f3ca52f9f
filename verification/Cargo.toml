[package]
name = "confkit"
version = "0.1.0"
edition = "2021"
publish = false

[dependencies]
toml_edit = { version = "0.22", features = ["serde"] }
serde = { version = "1", features = ["derive"] }
xdg = "3"
syn = { version = "2", features = ["full"] }
quote = "1"
proc-macro2 = "1"

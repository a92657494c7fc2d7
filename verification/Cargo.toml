[package]
name = "gpuflo"
version = "0.1.0"
edition = "2021"
publish = false

[dependencies]
crossbeam-channel = "0.5"
crossterm = "0.28"
lexopt = "0.3"
libloading = "0.8"
ratatui = "0.29"
serde = { version = "1", features = ["derive"] }
serde_json = "1"
signal-hook = "0.3"
thiserror = "2"
time = { version = "0.3", features = ["formatting", "parsing", "macros", "local-offset"] }
toml = "0.8"
unicode-width = "0.2"

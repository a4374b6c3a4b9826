[package]
name = "group"
version = "0.1.0"
edition = "2021"
publish = false

[dependencies]
chrono = { version = "0.4", default-features = false, features = ["std"] }
crossterm = "0.23"
indexmap = "1"
serde = { version = "1", features = ["derive"] }
serde_json = "1"
serde_yaml = "0.8"
string-error = "*"
structopt = "0.3"
tui = "0.18"

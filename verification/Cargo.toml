[package]
name = "elx"
version = "0.1.0"
edition = "2021"
publish = false

[dependencies]
anyhow = "=1.0.104"
chrono = { version = "=0.4.45", default-features = false, features = ["clock"] }
clap = { version = "=4.6.7", features = ["derive"] }
crossterm = "=0.29.0"
dirs = "=7.0.0"
figment = { version = "=0.10.19", features = ["toml", "env"] }
gix = { version = "=0.90.0", default-features = false, features = ["status", "sha1"] }
ignore = "=0.4.34"
serde = { version = "=1.0.229", features = ["derive"] }
terminal_size = "=0.4.4"
toml_edit = "=0.25.18"
unicode-width = "=0.2.3"
users = "=0.11.0"

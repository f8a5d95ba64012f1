[package]
name = "jw"
version = "0.5.0"
edition = "2021"
publish = false

[dependencies]
fuzzy-matcher = "0.3"
semver = "1"
anyhow = "1"
clap = { version = "4.5", features = ["derive"] }
clap_complete = { version = "4.5", features = ["unstable-dynamic"] }
crossterm = "0.28"
ratatui = { version = "0.29", features = ["serde"] }
ansi-to-tui = "7"
serde = { version = "1", features = ["derive"] }
serde_json = "1"
toml = "0.8"
ureq = "3"
sha2 = "0.10"
flate2 = "1"
tar = "0.4"
self-replace = "1"
tempfile = "3"

[dev-dependencies]

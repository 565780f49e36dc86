[package]
name = "hmm_rs"
version = "0.1.0"
edition = "2021"
publish = false

[dependencies]
indextree = "4"
anyhow = "1"
clap = { version = "4", features = ["derive"] }
crossterm = "0.28"
ratatui = "0.29"
directories = "5"
serde = { version = "1", features = ["derive"] }
serde_json = "1"
config = { version = "0.14", default-features = false, features = ["toml"] }
unicode-width = "0.2"
textwrap = "0.16"
regex = "1"
thiserror = "1"
uuid = { version = "1", features = ["v4"] }
clipboard = "0.5"

[dev-dependencies]
tempfile = "3"

[package]
name = "cursor_rules"
version = "0.1.0"
edition = "2021"
publish = false

[dependencies]
anyhow = "*"
base64 = "*"
clap = { version = "*", features = ["derive"] }
dirs = "*"
fs2 = "*"
inquire = "*"
is-terminal = "*"
octocrab = "*"
reqwest = { version = "*", default-features = false, features = ["rustls-tls"] }
serde = { version = "*", features = ["derive"] }
serde_json = "*"
serde_yaml = "*"
sha1 = "*"
tempfile = "*"
tokio = { version = "*", features = ["macros", "rt-multi-thread", "sync", "fs", "time"] }

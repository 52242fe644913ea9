[package]
name = "oc-stats"
version = "0.1.0"
edition = "2021"
publish = false

[dependencies]
anyhow = "1"
chrono = "0.4"
clap = { version = "4", features = ["derive"] }
json5 = "*"
ratatui = "*"
reqwest = { version = "*", default-features = false, features = ["json"] }
rusqlite = "*"
rust_decimal = "1"
serde_json = "1"
thiserror = "*"
tokio = { version = "1", features = ["macros", "rt-multi-thread"] }
unicode-width = "*"

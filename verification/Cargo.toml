[package]
name = "workman"
version = "0.5.0"
edition = "2021"
publish = false

[dependencies]
anyhow = "1"
clap = "3"
csv = "1"
rusqlite = { version = "*", features = ["bundled"] }
serde = { version = "1", features = ["derive"] }
serde_json = "1"
termion = "1"
threadpool = "1"
tui = { version = "*", default-features = false, features = ["termion"] }

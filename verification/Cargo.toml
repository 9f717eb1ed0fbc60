[package]
name = "harness_cli"
version = "0.1.0"
edition = "2021"
publish = false

[dependencies]
serde_json = "1"
rusqlite = { version = "*", features = ["bundled"] }
thiserror = "*"
clap = { version = "4", features = ["derive"] }

[dev-dependencies]
tempfile = "3"

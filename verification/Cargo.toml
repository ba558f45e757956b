[package]
name = "vdl"
version = "0.1.0"
edition = "2021"
publish = false

[dependencies]
indexmap = "2"
regex = "1"
chrono = "0.4"
clap = { version = "4.5", features = ["derive"] }
miette = "7.2"
serde = { version = "1", features = ["derive"] }
serde_json = "1"
thiserror = "1"

[dev-dependencies]
tempfile = "3"

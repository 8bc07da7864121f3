[package]
name = "roextract"
version = "0.1.0"
edition = "2021"
publish = false

[dependencies]
zstd = "*"
hex = "*"
whoami = "1"
clap = { version = "4", features = ["derive"] }
strum = "*"
strum_macros = "*"
serde = { version = "1", features = ["derive"] }
serde_json = "1"
fluent-bundle = "*"
native-dialog = "*"
egui = "*"
chrono = "*"
filetime = "*"
rusqlite = { version = "*", features = ["bundled"] }

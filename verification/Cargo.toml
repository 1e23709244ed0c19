[package]
name = "dream_archivetool"
version = "0.1.0"
edition = "2021"
publish = false

[dependencies]
dream_archive = "*"
dream-path = "*"
serde = { version = "1", features = ["derive"] }
serde_json = "1"
clap = { version = "4", features = ["derive"] }
clap_complete = "4"
clap_mangen = "*"
tempfile = "3"
walkdir = "2"
thiserror = "*"
mlua = { version = "*", features = ["lua54", "vendored"] }

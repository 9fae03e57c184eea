[package]
name = "cargo_work"
version = "0.1.0"
edition = "2021"
publish = false

[dependencies]
semver = "*"
anyhow = "*"
clap = { version = "*", features = ["derive"] }
toml_edit = "*"
crates_io_api = "*"
which = "*"

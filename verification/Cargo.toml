[package]
name = "xtask_core"
version = "0.1.0"
edition = "2021"
publish = false

[dependencies]
toml_edit = { version = "0.22", features = ["serde"] }
sha2 = "0.10"
hex = "0.4"
time = { version = "0.3", features = ["parsing"] }
semver = "1"
serde = { version = "1", features = ["derive"] }
serde_json = "1"
clap = { version = "4", features = ["derive"] }
thiserror = "1"

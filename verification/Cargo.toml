[package]
name = "cargo-fusion"
version = "0.1.0"
edition = "2021"
publish = false

[dependencies]
anyhow = "1"
cargo_toml = "*"
chrono = "0.4"
clap = { version = "4", features = ["derive"] }
clap-cargo = "*"
ignore = "*"
once_cell = "1"
rayon = "1"
toml = "*"
tracing = "0.1"
tracing-subscriber = { version = "0.3", features = ["env-filter"] }

[dev-dependencies]
tempfile = "3"

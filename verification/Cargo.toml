[package]
name = "table_deps"
version = "0.1.0"
edition = "2021"
publish = false

[dependencies]
toml_edit = "=0.19.15"
anyhow = "=1.0.104"
cargo_metadata = "=0.18.1"
clap = { version = "=4.5.61", features = ["derive"] }
clap-cargo = "*"

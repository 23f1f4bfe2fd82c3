[package]
name = "cargo-geiger"
version = "0.1.0"
edition = "2021"
rust-version = "1.95"
publish = false

[dependencies]
cargo-geiger-serde = "=0.3.0"
cargo_metadata = "=0.19.2"
colored = "=3.1.1"
pico-args = "=0.5.0"
semver = "=1.0.28"
serde_json = "=1.0.154"
syn = { version = "2", features = ["full", "visit"] }
url = "=2.5.8"

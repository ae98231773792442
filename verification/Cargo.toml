[package]
name = "mac_address"
version = "0.1.0"
edition = "2021"
publish = false

[dependencies]
nix = { version = "*", features = ["net"] }
serde = { version = "*", features = ["derive"] }

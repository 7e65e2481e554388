[package]
name = "clippyd"
version = "0.1.0"
edition = "2021"
publish = false

[dependencies]
anyhow = "1"
cargo-manifest = "*"
clap = { version = "4", features = ["derive"] }

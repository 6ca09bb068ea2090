[package]
name = "forge_lint"
version = "0.1.0"
edition = "2021"
publish = false

[dependencies]
solar-compiler = { version = "=0.1.8", default-features = false }

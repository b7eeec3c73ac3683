[package]
name = "mdbook_mathpunc"
version = "0.1.0"
edition = "2021"
publish = false

[dependencies]
mdbook = { version = "0.4", default-features = false }
clap = { version = "4", features = ["cargo"] }
semver = "1"
serde_json = "1"

[package]
name = "mdbook-git"
version = "0.1.0"
edition = "2021"
publish = false

[dependencies]
anyhow = "=1.0.104"
clap = "=4.6.7"
git2 = { version = "=0.21.0", default-features = false }
mdbook = { version = "=0.4.52", default-features = false }
semver = "=1.0.28"
serde_json = "=1.0.151"

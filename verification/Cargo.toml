[package]
name = "owner_history"
version = "0.1.0"
edition = "2021"
publish = false

[dependencies]
clap = "2"
codeowners = "*"
git2 = { version = "*", default-features = false }

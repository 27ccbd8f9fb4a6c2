[package]
name = "changelog"
version = "0.1.0"
edition = "2021"
publish = false

[dependencies]
parse-changelog = "*"
semver = "*"
chrono = "*"
git-conventional = "*"
similar = "*"
colored = "*"
git2 = "*"
dialoguer = "*"
tempfile = "*"
clap = { version = "*", features = ["derive"] }
clap_complete = "*"

[package]
name = "git_cred"
version = "0.1.0"
edition = "2021"
publish = false

[dependencies]
git2 = "*"
serde_json = "*"

[dependencies.reqwest]
version = "*"
default-features = false
features = ["blocking", "json"]

[package]
name = "steer"
version = "0.1.0"
edition = "2021"
publish = false

[dependencies]
base64 = "=0.22.1"
image = { version = "=0.25.10", default-features = false, features = ["png"] }
regex = "=1.13.1"
grep-regex = "=0.1.14"
grep-searcher = "=0.1.17"
ignore = "=0.4.34"
glob = "=0.3.4"
serde = { version = "=1.0.229", features = ["derive"] }
serde_json = "=1.0.154"
thiserror = "=2.0.21"
ast-grep-core = "*"
ast-grep-language = "*"

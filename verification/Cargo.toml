[package]
name = "vary"
version = "0.4.1"
edition = "2021"
publish = false

[dependencies]
petgraph = "*"
sha2 = "*"
md5 = "*"
base64 = "*"
serde = { version = "1", features = ["derive"] }
serde_json = "1"
toml = "*"
anyhow = "1"
dirs = "*"
tempfile = "3"
nix = { version = "*", features = ["signal", "user", "fs", "process"] }
ansiterm = "*"
diffy = "*"
indicatif = "*"
ruzstd = "*"
tar = "*"
tracing = "*"
tracing-subscriber = { version = "*", features = ["env-filter"] }
tracing-appender = "*"
mimalloc = "*"

[package]
name = "mailin"
version = "0.1.0"
edition = "2021"
publish = false

[dependencies]
anyhow = "*"
chrono = "*"
failure = "*"
getopts = "*"
log = "*"
mxdns = "*"
nix = { version = "*", features = ["user"] }
privdrop = "*"
simplelog = "*"

[package]
name = "fuseshadow"
version = "0.1.0"
edition = "2021"
publish = false

[dependencies]
anyhow = "1"
bstr = { version = "=1.13.1", default-features = false, features = ["std"] }
clap = { version = "4", features = ["derive"] }
fuser = { version = "=0.15.1", default-features = false }
ignore = "=0.4.34"
libc = "0.2"
tempfile = "3"
toml = "=0.8.23"
walkdir = "2"

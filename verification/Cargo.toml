[package]
name = "cache-thing"
version = "0.1.0"
edition = "2021"
publish = false

[dependencies]
anyhow = "1"
base16ct = { version = "*", features = ["alloc"] }
clap = { version = "4", features = ["derive"] }
env_logger = "*"
flate2 = "1"
gix = "*"
log = "0.4"
sha2 = "*"
tar = "*"

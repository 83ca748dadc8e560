[package]
name = "fat32"
version = "0.1.0"
edition = "2021"
publish = false

[dependencies]
chrono = { version = "0.4", default-features = false, features = ["clock", "std"] }
fuser = "*"
log = "0.4"
nix = { version = "*", features = ["fs", "uio", "user"] }
parking_lot = "0.12"
rayon = "1"
simple_logger = "*"
thiserror = "1"

[package]
name = "nbd_async"
version = "0.1.0"
edition = "2021"
publish = false

[dependencies]
byteorder = "1"
nix = { version = "*", features = ["ioctl"] }
tokio = { version = "1", features = ["fs", "net", "io-util", "rt", "macros"] }
futures = "0.3"
async-trait = "0.1"

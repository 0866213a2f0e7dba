[package]
name = "otptray"
version = "0.1.0"
edition = "2021"
publish = false

[dependencies]
base32 = "*"
totp-lite = "*"
hmac = "*"
sha1 = "*"
sha2 = "*"
dirs = "*"
clap = "*"
log = "*"
simple_logger = "*"
atomic_immut = "*"
lazy_static = "*"

[dev-dependencies]
serde_yaml = "*"

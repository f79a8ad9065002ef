[package]
name = "stronghold_core"
version = "0.1.0"
edition = "2021"
publish = false

[dependencies]
chacha20poly1305 = "0.10"
dirs = "=7.0.0"
hmac = "0.12"
libc = "=0.2.191"
rand = "=0.8.8"
sha2 = "0.10"
thiserror = "=1.0.69"
zeroize = "=1.9.1"

[package]
name = "gtp"
version = "0.1.0"
edition = "2021"
publish = false

[dependencies]
chacha20poly1305 = "0.10"
hkdf = "0.12"
hmac = "0.12"
sha2 = "0.10"
subtle = "2"
x25519-dalek = { version = "2", features = ["static_secrets"] }
rand = "0.8"
zeroize = { version = "1", features = ["derive"] }
rustc-hash = "2"
socket2 = { version = "0.5", features = ["all"] }
libc = "0.2"

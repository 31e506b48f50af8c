[package]
name = "lantern_filesystem"
version = "0.1.0"
edition = "2021"
publish = false

[dependencies]
blake3 = { version = "1", default-features = false, features = ["pure"] }

[dev-dependencies]
chacha20poly1305 = "0.10"

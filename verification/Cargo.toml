[package]
name = "hyperloglockless"
version = "0.1.0"
edition = "2021"
publish = false

[dependencies]
libm = "=0.2.16"
siphasher = "=1.0.4"
serde = { version = "=1.0.229", features = ["derive"] }
serde_cbor = "=0.11.2"

[package]
name = "taylorchat"
version = "0.1.0"
edition = "2021"
publish = false

[dependencies]
base64 = "0.22"
chacha20poly1305 = "0.10"
hkdf = "0.12"
sha2 = "0.10"
rand = "0.8"
ed25519-dalek = { version = "2", features = ["rand_core"] }
qrcode = { version = "0.14", default-features = false, features = ["svg"] }
zstd = "0.13"
vodozemac = "*"
serde = { version = "1", features = ["derive"] }
serde_json = "1"
rusqlite = { version = "*", features = ["bundled"] }
keyring = "3"
image = { version = "0.25", default-features = false, features = ["png", "jpeg"] }
tokio = { version = "1", features = ["time"] }

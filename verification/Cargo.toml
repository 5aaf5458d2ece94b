[package]
name = "rok"
version = "0.1.0"
edition = "2021"
publish = false

[dependencies]
sha2 = "0.10"
hkdf = "0.12"
bs58 = "0.5"
x25519-dalek = { version = "2", features = ["static_secrets"] }
ed25519-dalek = { version = "2", features = ["rand_core"] }
chacha20poly1305 = "0.10"
aes-gcm-siv = "0.11"
ml-kem = "0.2"
rand = "0.8"
rand_core = { version = "0.6", features = ["getrandom"] }
rand_chacha = "0.3"
hex = "0.4"
prost = "0.13"
serde = { version = "1", features = ["derive"] }
serde_json = "1"
clap = { version = "4", features = ["derive"] }
anyhow = "1"
thiserror = "1"
base64 = "0.22"
reqwest = { version = "0.12", default-features = false, features = ["blocking", "json"] }

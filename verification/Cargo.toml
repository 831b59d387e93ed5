[package]
name = "liserk_store"
version = "0.1.0"
edition = "2021"
publish = false

[dependencies]
num-bigint = "=0.5.1"
uuid = { version = "=1.27.0", features = ["v4"] }
aes-gcm-siv = "=0.12.1"
pqc_kyber = { version = "=0.7.1", features = ["std", "kyber768"] }
pqcrypto-falcon = "=0.4.1"
pqcrypto-traits = "=0.3.5"
getrandom = "=0.2.17"
rand = "=0.8.8"
chrono = "=0.4.45"
tokio = { version = "=1.53.2", features = ["full"] }
async-channel = "=2.5.0"
toml = "=0.9.8"
serde = { version = "=1.0.229", features = ["derive"] }
serde_cbor = "=0.11.2"
thiserror = "=2.0.21"

[package]
name = "term_chat"
version = "0.1.0"
edition = "2021"
publish = false

[dependencies]
aes-gcm = "=0.11.1"
clap = { version = "=4.6.7", features = ["derive"] }
env_logger = "=0.11.11"
hkdf = "=0.13.0"
log = "=0.4.34"
lz4 = "=1.28.1"
p521 = { version = "=0.14.0", features = ["ecdh"] }
papaya = "=0.2.5"
rand = "=0.10.3"
ron = "=0.12.2"
serde = { version = "=1.0.229", features = ["derive"] }
sha2 = "=0.11.0"
tokio = { version = "=1.53.2", features = ["rt-multi-thread", "net", "sync", "io-util", "io-std", "time", "macros"] }

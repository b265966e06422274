[package]
name = "clipsync"
version = "0.1.0"
edition = "2021"
publish = false

[dependencies]
aes-gcm = "=0.10.3"
anyhow = "=1.0.104"
arboard = { version = "=3.7.0", default-features = false, features = ["image-data"] }
async-trait = "=0.1.92"
base64 = "=0.22.1"
bincode = "=1.3.3"
blake3 = { version = "=1.8.7", features = ["pure"] }
dbus-secret-service = { version = "=4.1.0", features = ["vendored", "crypto-rust"] }
futures-util = "=0.3.34"
gethostname = "=0.5.0"
hkdf = "=0.12.4"
hmac = "=0.12.1"
if-addrs = "=0.13.4"
lru = "=0.12.5"
mdns-sd = "=0.11.5"
parking_lot = "=0.12.5"
rand = "=0.8.8"
reqwest = { version = "=0.12.28", default-features = false, features = ["stream", "json", "rustls-tls"] }
serde = { version = "=1.0.229", features = ["derive"] }
serde_json = "=1.0.154"
sha2 = "=0.10.9"
spake2 = "=0.4.0"
tokio = { version = "=1.54.1", features = ["rt-multi-thread", "macros", "net", "io-util", "sync", "time", "fs"] }
tokio-tungstenite = { version = "=0.24.0", features = ["rustls-tls-webpki-roots"] }
tracing = "=0.1.44"
tracing-appender = "=0.2.5"
tracing-subscriber = { version = "=0.3.23", features = ["env-filter"] }
uuid = { version = "=1.29.0", features = ["v4"] }
x11rb = "=0.13.2"
x25519-dalek = { version = "=2.0.1", features = ["static_secrets"] }

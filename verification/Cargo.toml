[package]
name = "vox"
version = "0.1.0"
edition = "2021"
publish = false

[dependencies]
anyhow = "=1.0.104"
arboard = { version = "=3.7.0", default-features = false }
base64 = "=0.22.1"
directories = "=5.0.1"
enigo = { version = "0.2", default-features = false, features = ["x11rb"] }
futures-util = "=0.3.34"
parking_lot = "=0.12.5"
reqwest = { version = "=0.12.28", default-features = false, features = ["json", "multipart", "rustls-tls"] }
serde = { version = "=1.0.229", features = ["derive"] }
serde_json = "=1.0.154"
tokio = { version = "=1.54.1", features = ["net", "io-util", "rt", "sync", "time", "macros"] }
tokio-tungstenite = { version = "=0.24.0", default-features = false, features = ["connect", "rustls-tls-webpki-roots"] }
tracing = "=0.1.44"
tracing-subscriber = { version = "=0.3.23", features = ["env-filter"] }

[package]
name = "muna"
version = "0.0.20"
edition = "2021"
publish = false

[dependencies]
base64 = "0.22"
url = "2"
serde = { version = "1", features = ["derive"] }
serde_json = "1"
sha2 = "0.10"
home = "0.5"
thiserror = "2"
async-trait = "0.1"
async-stream = "0.3"
futures-core = "0.3"
futures-util = "0.3"
tokio = { version = "1", features = ["full"] }
reqwest = { version = "0.12", default-features = false, features = ["json", "stream", "rustls-tls"] }

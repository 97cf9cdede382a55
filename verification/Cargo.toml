[package]
name = "shellfleet_agent"
version = "0.1.0"
edition = "2021"
publish = false

[dependencies]
aws-config = "1"
aws-sdk-s3 = "1"
base64 = "0.22"
chacha20poly1305 = "0.10"
ed25519-dalek = "2"
futures-util = "0.3"
hkdf = "0.12"
hostname = "0.4"
k8s-openapi = { version = "0.24", features = ["v1_32"] }
kube = { version = "0.98", features = ["ws"] }
libc = "0.2"
portable-pty = "0.8"
rand = "0.8"
reqwest = { version = "0.12", default-features = false, features = ["json", "rustls-tls", "stream"] }
rusqlite = { version = "0.32", features = ["bundled"] }
rustls = { version = "0.23", default-features = false, features = ["ring", "std"] }
serde = { version = "1", features = ["derive"] }
serde_json = "1"
sha2 = "0.10"
tempfile = "3"
tokio = { version = "1", features = ["full"] }
tokio-tungstenite = "0.26"
x25519-dalek = { version = "2", features = ["static_secrets"] }

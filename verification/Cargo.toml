[package]
name = "capdag"
version = "0.1.0"
edition = "2021"
publish = false

[dependencies]
anyhow = "1"
atty = "0.2"
ciborium = "0.2"
dirs = "5"
ed25519-dalek = "2"
glob = "0.3"
image = { version = "0.25", default-features = false, features = ["png"] }
jsonschema = { version = "0.18", default-features = false }
minisign-verify = "0.2"
reqwest = { version = "0.12", default-features = false, features = ["json", "rustls-tls"] }
serde = { version = "1", features = ["derive"] }
serde_json = "1"
sha2 = "0.10"
socket2 = { version = "0.5", features = ["all"] }
thiserror = "1"
tokio = { version = "1", features = ["full"] }
tracing = "0.1"

[dev-dependencies]
tempfile = "3"

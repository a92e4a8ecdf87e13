[package]
name = "conclave"
version = "0.1.0"
edition = "2021"
publish = false

[dependencies]
sha2 = "0.10"
hex = "0.4"
serde = { version = "1", features = ["derive"] }
serde_json = "1"
base64 = "0.22"
clap = { version = "4", features = ["derive"] }
anyhow = "1"
thiserror = "1"
dirs-next = "2"
ureq = { version = "2", default-features = false }

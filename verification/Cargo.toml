[package]
name = "tencent_scf"
version = "0.1.0"
edition = "2021"
publish = false

[dependencies]
base64 = "0.13"
http = "0.2"
serde = { version = "1", features = ["derive"] }
serde_json = "1"
thiserror = "1"
ureq = { version = "2", default-features = false }

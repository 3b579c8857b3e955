[package]
name = "volt"
version = "0.1.0"
edition = "2021"
publish = false

[dependencies]
base64 = "=0.13.1"
bytes = "=1.12.1"
clap = "=3.2.25"
dirs = "=4.0.0"
serde = { version = "=1.0.229", features = ["derive"] }
serde_json = { version = "=1.0.154", features = ["preserve_order"] }
sha1 = "=0.10.7"
sha2 = "=0.10.9"
ssri = "=7.0.0"
thiserror = "=1.0.69"

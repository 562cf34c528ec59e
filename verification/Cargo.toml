[package]
name = "assay"
version = "0.1.0"
edition = "2021"
publish = false

[dependencies]
url = "=2.5.8"
sha2 = "=0.11.1"
sha1 = "=0.11.0"
sha3 = "*"
rand = "*"
data-encoding = "=2.11.1"
serde = { version = "=1.0.229", features = ["derive"] }
serde_json = "=1.0.154"
serde_yml = "=0.0.13"

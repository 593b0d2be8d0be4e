[package]
name = "cdn_bucket"
version = "0.1.0"
edition = "2021"
publish = false

[dependencies]
sha2 = "*"
base64 = "*"
ciborium = "*"
ic-certified-map = "*"
serde = "*"
serde_bytes = "*"
candid = "*"
ic-cdk = "*"
ic-stable-structures = "*"

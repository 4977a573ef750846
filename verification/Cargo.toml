[package]
name = "nfs4_acl"
version = "0.1.0"
edition = "2021"
publish = false

[dependencies]
bitflags = "2"
bitflags_serde_shim = "*"
serde = { version = "1", features = ["derive"] }

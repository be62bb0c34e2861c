[package]
name = "ockam_profile"
version = "0.1.0"
edition = "2021"
publish = false

[dependencies]
serde_bare = "0.5"
serde = { version = "1", features = ["derive"] }
rand = "0.8"

[dev-dependencies]
sha2 = "0.10"

[package]
name = "minimap-core"
version = "0.1.0"
edition = "2021"
publish = false

[dependencies]
sha2 = "0.10"
indexmap = "2"
git2 = { version = "0.19", default-features = false }
toml = "0.8"
serde = { version = "1", features = ["derive"] }
chrono = { version = "0.4", default-features = false, features = ["std"] }
thiserror = "1"

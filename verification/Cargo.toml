[package]
name = "wincode"
version = "0.1.0"
edition = "2021"
publish = false

[dependencies]
indexmap = "2"
thiserror = "2"

[dev-dependencies]
bincode = "1.3"
serde = { version = "1", features = ["derive"] }

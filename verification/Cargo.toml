[package]
name = "docsore"
version = "0.1.0"
edition = "2021"
publish = false

[dependencies]
anyhow = "1"
bincode = "1.3"
chrono = "0.4"
fern = "0.6"
log = "0.4"
nanoid = "0.4"
seahash = "4"
serde = { version = "1", features = ["derive"] }
sled = "0.34"

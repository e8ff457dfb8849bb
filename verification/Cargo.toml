[package]
name = "dtn_core"
version = "0.1.0"
edition = "2021"
publish = false

[dependencies]
bp7 = { version = "*", default-features = false }
log = "0.4"
serde = { version = "1", features = ["derive"] }

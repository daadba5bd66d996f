[package]
name = "rust_asar"
version = "0.1.0"
edition = "2021"
publish = false

[dependencies]
serde_json = { version = "1", features = ["preserve_order"] }
clap = { version = "3", features = ["derive"] }
libc = "0.2"

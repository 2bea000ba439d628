[package]
name = "iuna"
version = "0.1.0"
edition = "2021"
publish = false

[dependencies]
anyhow = "1"
chacha20poly1305 = "0.10"
ed25519-dalek = "2"
getrandom = "0.2"
serde = { version = "1", features = ["derive"] }
serde_json = { version = "1", features = ["preserve_order"] }
sha2 = "0.10"
tokio = { version = "1", features = ["macros", "rt-multi-thread", "sync", "time"] }

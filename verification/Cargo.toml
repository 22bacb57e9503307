[package]
name = "ics12_near"
version = "0.1.0"
edition = "2021"
publish = false

[dependencies]
sha2 = "0.10"
ed25519-dalek = "1"
prost = "0.12"
bytes = "1"
serde = { version = "1", features = ["derive"] }

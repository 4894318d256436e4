[package]
name = "pgvector"
version = "0.1.0"
edition = "2021"
publish = false

[dependencies]
bytes = "*"
postgres-types = "*"
serde = { version = "*", features = ["derive"] }

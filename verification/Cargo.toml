[package]
name = "exonum_neo4j"
version = "0.1.0"
edition = "2021"
publish = false

[dependencies]
exonum = "=0.9.7"
hex = "=0.3.2"
serde = { version = "1", features = ["derive"] }

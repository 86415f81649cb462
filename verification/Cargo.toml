[package]
name = "atomvchecker"
version = "0.2.0"
edition = "2021"
publish = false

[dependencies]
log = "0.4"
petgraph = "0.6"
regex = "1"
rustc-hash = "1"
serde = { version = "1", features = ["derive"] }
serde_json = "1"

[package]
name = "krill_store"
version = "0.1.0"
edition = "2021"
publish = false

[dependencies]
rpki = { version = "*", features = ["repository"] }
clokwerk = "*"
serde = { version = "*", features = ["derive"] }
serde_json = "*"

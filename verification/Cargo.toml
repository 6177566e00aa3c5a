[package]
name = "vardadb"
version = "0.1.0"
edition = "2021"
publish = false

[dependencies]
rust-stemmers = "=1.2.0"
sha2 = "=0.10.9"
hex = "=0.4.3"
serde_json = "=1.0.154"
clap = { version = "=4.6.7", features = ["derive"] }
regex = "1"

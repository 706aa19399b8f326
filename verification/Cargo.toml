[package]
name = "memdb"
version = "0.1.0"
edition = "2021"
publish = false

[dependencies]
clap = { version = "4", features = ["derive"] }
dashmap = "6"
flurry = "0.5"
moka = { version = "0.12", features = ["sync"] }

[package]
name = "arq_sim"
version = "0.1.0"
edition = "2021"
publish = false

[dependencies]
async-std = { version = "1", features = ["attributes"] }
chrono = "0.4"
csv = "1"
rand = "0.7"
serde = { version = "1", features = ["derive"] }
structopt = "0.3"

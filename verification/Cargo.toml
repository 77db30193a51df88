[package]
name = "subnet_consensus"
version = "0.1.0"
edition = "2021"
publish = false

[dependencies]
substrate-fixed = "=0.6.0"
parity-scale-codec = { version = "=3.7.5", features = ["derive"] }
sp-runtime = { version = "=49.0.0", default-features = false }
sp-core = { version = "=43.0.0", default-features = false }

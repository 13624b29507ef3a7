[package]
name = "light_merkle_tree"
version = "0.1.0"
edition = "2021"
publish = false

[dependencies]
anchor-lang = "=0.31.2"
light-poseidon = "=0.0.3"
clap = { version = "=4.6.7", features = ["derive"] }
quote = "=1.0.47"
anyhow = "=1.0.104"

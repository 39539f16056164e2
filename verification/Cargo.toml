[package]
name = "chess_benchmark"
version = "0.1.0"
edition = "2021"
publish = false

[dependencies]
clap = { version = "=4.6.7", features = ["derive"] }
rayon = "=1.12.0"
reqwest = { version = "=0.12.28", features = ["blocking", "json"] }
serde = { version = "=1.0.229", features = ["derive"] }
shakmaty = "=0.30.1"

[package]
name = "chess_pos_analyzer"
version = "0.1.0"
edition = "2021"
publish = false

[dependencies]
shakmaty = "0.27"
anyhow = "1"
clap = { version = "4", features = ["derive"] }
indicatif = "0.17"
serde = { version = "1", features = ["derive"] }
serde_json = "1"

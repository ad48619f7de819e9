[package]
name = "eevee_eval"
version = "0.1.0"
edition = "2021"
publish = false

[dependencies]
board-game = "=0.8.2"
clap = { version = "4", features = ["derive"] }
eevee = { version = "=0.2.1", features = ["serialize_json"] }
internal-iterator = "=0.2.3"
minifb = "*"
nes_rust_slim = "=0.2.0"
rand = "0.9"
rayon = "1"
serde = { version = "1", features = ["derive"] }
serde_yaml = "*"

[package]
name = "chess_engine"
version = "0.1.0"
edition = "2021"
publish = false

[dependencies]
rand = "0.8"
once_cell = "1"
serde = { version = "1", features = ["derive"] }
strum = "0.26"
strum_macros = "0.26"

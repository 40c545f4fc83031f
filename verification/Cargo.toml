[package]
name = "tic_tac_toe"
version = "0.1.0"
edition = "2021"
publish = false

[dependencies]
cosmwasm-std = "=1.0.1"
cw2 = "=0.13.4"
schemars = "=0.8.22"
serde = { version = "=1.0.229", features = ["derive"] }

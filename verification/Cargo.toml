[package]
name = "swords"
version = "0.1.0"
edition = "2021"
publish = false

[dependencies]
aes-gcm = "0.10"
sha3 = "0.10"
rand = "0.8"
clap = { version = "4", features = ["derive"] }
crossterm = "0.27"
inquire = "0.7"
arboard = { version = "3", default-features = false }

[package]
name = "dust_cleaner"
version = "0.1.0"
edition = "2021"
publish = false

[dependencies]
base64 = "0.22"
bitcoin = "0.32"
bitcoincore-rpc = "*"
clap = { version = "4", features = ["derive"] }

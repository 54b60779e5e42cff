[package]
name = "deepwell"
version = "0.1.0"
edition = "2021"
publish = false

[dependencies]
scrypt = "*"
rand = "*"
ipnetwork = "*"
parking_lot = "*"

[package]
name = "poseidon"
version = "0.1.0"
edition = "2021"
publish = false

[dependencies]
pairing_ce = "*"
rand = "0.4"

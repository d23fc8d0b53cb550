[package]
name = "asset_trap"
version = "0.1.0"
edition = "2021"
publish = false

[dependencies]
sp-crypto-hashing = "=0.1.0"

[package]
name = "timelock_key_sharing"
version = "0.1.0"
edition = "2021"
publish = false

[dependencies]
hex = "0.4"
rand = "0.8"
rand_chacha = "0.3"
sha2 = "0.10"

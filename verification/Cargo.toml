[package]
name = "encrustant"
version = "0.1.0"
edition = "2021"
publish = false

[dependencies]
bitvec = "1"
rand_chacha = "0.3"

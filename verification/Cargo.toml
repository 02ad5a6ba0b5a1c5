[package]
name = "dht_id"
version = "0.1.0"
edition = "2021"

[dependencies]
bitvec = "*"
regex = "*"

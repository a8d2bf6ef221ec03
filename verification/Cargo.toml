[package]
name = "hash_agg"
version = "0.1.0"
edition = "2021"
publish = false

[dependencies]
itertools = "*"
smallvec = "1"

[package]
name = "mempool_dag"
version = "0.1.0"
edition = "2021"
publish = false

[dependencies]
everscale-crypto = "=0.2.1"
rand = "=0.8.8"
sha2 = "=0.10.9"
zstd-safe = "*"

[package]
name = "retransmit_core"
version = "0.1.0"
edition = "2021"
publish = false

[dependencies]
solana-perf = "=2.1.21"
lru = "=0.12.5"
rand = "=0.8.8"
rand_chacha = "=0.3.1"
crossbeam-channel = "=0.5.17"
libc = "0.2"
rayon = "=1.12.0"

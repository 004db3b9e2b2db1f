[package]
name = "shred-cache"
version = "0.1.0"
edition = "2021"
publish = false

[dependencies]
bincode = "=1.3.3"
bytes = "1.5"
crossbeam = "=0.8.5"
crossbeam-channel = "0.5.8"
dashmap = "=4.0.2"
rand = "0.8.5"
rayon = "1.8"
solana-entry = "=1.18.26"
solana-perf = "=1.18.26"
solana-rayon-threadlimit = "=1.18.26"
solana-sdk = "=1.18.26"

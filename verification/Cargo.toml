[package]
name = "loom_core"
version = "0.1.0"
edition = "2021"
publish = false

[dependencies]
dashmap = "5"
memmap2 = "0.9"
parking_lot = "0.12"
rand = "0.8"
rayon = "1"

[package]
name = "minigu"
version = "0.1.0"
edition = "2021"
publish = false

[dependencies]
anyhow = "1"
arrow = { version = "*", default-features = false }
bitvec = "1"
crossbeam-skiplist = "0.1"
csv = "1"
dashmap = "6"
itertools = "0.14"
miette = "7"
parking_lot = "0.12"
rayon = "1"
serde = { version = "1", features = ["derive"] }
serde_json = "1"
smol_str = "0.3"
thiserror = "2"
wasm-bindgen = "0.2"

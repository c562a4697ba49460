[package]
name = "nft-core"
version = "0.1.0"
edition = "2021"
publish = false

[dependencies]
frame-support = "38"
frame-system = "38"
pallet-uniques = "38"
sp-runtime = "39"
sp-std = "14"
parity-scale-codec = { version = "3", features = ["derive"] }
scale-info = { version = "2", features = ["derive"] }
serde = { version = "1", features = ["derive"] }

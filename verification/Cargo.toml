[package]
name = "warp_whir"
version = "0.1.0"
edition = "2021"
publish = false

[dependencies]
p3-challenger = "=0.6.3"
p3-dft = "=0.6.3"
p3-field = "=0.6.3"
p3-goldilocks = "=0.6.3"
p3-keccak = "=0.6.3"
p3-matrix = "=0.6.3"
p3-multilinear-util = "=0.6.3"
p3-symmetric = "=0.6.3"
serde = { version = "=1.0.229", features = ["derive"] }
thiserror = "=2.0.21"

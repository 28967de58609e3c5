[package]
name = "air_core"
version = "0.1.0"
edition = "2021"
publish = false

[dependencies]
p3-field = "=0.8.0"
p3-matrix = "=0.8.0"
p3-mersenne-31 = "=0.8.0"
p3-air = "=0.8.0"
p3-challenger = "=0.8.0"
p3-circle = "=0.8.0"
p3-commit = "=0.8.0"
p3-fri = "=0.8.0"
p3-keccak = "=0.8.0"
p3-merkle-tree = "=0.8.0"
p3-symmetric = "=0.8.0"
p3-uni-stark = "=0.8.0"
plonky2 = "=1.0.2"
rand = "=0.8.8"
anyhow = "=1.0.104"
tracing-forest = "=0.3.1"
tracing-subscriber = { version = "=0.3.23", features = ["env-filter"] }

[package]
name = "recursion_verifier"
version = "0.1.0"
edition = "2021"
publish = false

[dependencies]
anyhow = "1"
hashbrown = "0.14"
hex = "0.4"
num-bigint = "0.4"
p3-commit = "=0.2.0"
p3-field = "=0.2.0"
p3-koala-bear = "=0.2.0"
p3-matrix = "=0.2.0"
p3-poseidon2 = "=0.2.0"
p3-symmetric = "=0.2.0"
serde = { version = "1", features = ["derive"] }
serde_json = "1"
sha2 = "0.10"
tempfile = "3"

[dev-dependencies]
p3-challenger = "=0.2.0"
p3-dft = "=0.2.0"
p3-fri = "=0.2.0"
p3-merkle-tree = "=0.2.0"
p3-util = "=0.2.0"
rand = "0.8"

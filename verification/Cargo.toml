[package]
name = "cr_dr"
version = "0.1.0"
edition = "2021"
publish = false

[dependencies]
ark-bn254 = "0.4"
ark-ff = "0.4"
ark-ec = "0.4"
ark-ed-on-bn254 = "0.4"
light-poseidon = "0.2"
rand = "0.8"
rand_chacha = "0.3"
sha2 = "0.10"
num-bigint = "0.4"
serde = { version = "1", features = ["derive"] }
serde_json = "1"
hex = "0.4"
clap = { version = "4", features = ["derive"] }
anyhow = "1"
thiserror = "1"
tempfile = "3"

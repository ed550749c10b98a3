[package]
name = "spartan2"
version = "0.1.0"
edition = "2021"
publish = false

[dependencies]
ff = "0.13"
js-sys = "0.3"
num-bigint = "0.4"
once_cell = "1"
p3-field = "0.3"
p3-goldilocks = "0.3"
p3-symmetric = "0.3"
pasta_curves = "0.5"
rand = "0.9"
rand_chacha = "0.9"
rand_core = "0.6"
rayon = "1"
serde = { version = "1", features = ["derive"] }
sha3 = "0.10"
subtle = "2"
tracing = "0.1"

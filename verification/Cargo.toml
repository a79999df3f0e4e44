[package]
name = "tinystr"
version = "0.1.0"
edition = "2021"
publish = false

[dependencies]
serde = "1"

[dev-dependencies]
rand = "0.8"
rand_distr = "0.4"
rand_pcg = "0.3"

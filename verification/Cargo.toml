[package]
name = "enca"
version = "0.1.0"
edition = "2021"
publish = false

[dependencies]
rand = "0.9"
rand_chacha = "0.9"
rand_distr = "0.5"
indexmap = "2"
itertools = "*"
serde = { version = "1", features = ["derive"] }
serde_json = "1"
clap = { version = "4", features = ["derive"] }
ndarray = "0.16"
ndarray-stats = "0.6"
nalgebra = "*"
cmaes = { version = "*", default-features = false }
rayon = "1"
chrono = "*"
indicatif = "*"

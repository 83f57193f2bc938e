[package]
name = "grad"
version = "0.1.0"
edition = "2021"
publish = false

[dependencies]
anyhow = "1"
chrono = "0.4"
clap = { version = "4", features = ["derive"] }
data-encoding = "2"
itertools = "0.14"
rand = "0.9"
rand_chacha = "0.9"
rayon = "1"
thiserror = "2"
tracing = "0.1"
tracing-subscriber = { version = "0.3", features = ["chrono"] }
zstd = "0.13"

[package]
name = "ccze_rs"
version = "0.1.0"
edition = "2021"
publish = false

[dependencies]
memchr = "2"
num_cpus = "1"
serde = { version = "1", features = ["derive"] }
bincode = "1"
clap = { version = "4", features = ["derive"] }
tokio = { version = "1", features = ["io-std", "io-util", "macros", "rt-multi-thread"] }

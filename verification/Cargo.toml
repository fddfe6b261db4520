[package]
name = "dupels"
version = "0.1.0"
edition = "2021"
publish = false

[dependencies]
md5 = "*"
num_cpus = "*"
crossbeam-channel = "*"
clap = { version = "*", features = ["derive"] }

[package]
name = "blake_bench"
version = "0.1.0"
edition = "2021"
publish = false

[dependencies]
blake2 = "0.10"
blake3 = { version = "1", features = ["rayon"] }
clap = { version = "4", features = ["derive"] }
num_cpus = "1"
rand = "0.8"
rayon = "1"
rustc_version_runtime = "0.3"
sysinfo = "0.30"

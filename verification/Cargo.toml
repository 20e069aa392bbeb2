[package]
name = "pathtracer"
version = "0.1.0"
edition = "2021"
publish = false

[dependencies]
crossbeam = "0.8"
json = "0.12"
num_cpus = "1"
png = "0.17"
rand = "0.8"

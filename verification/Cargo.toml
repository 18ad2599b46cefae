[package]
name = "gdsii"
version = "0.1.0"
edition = "2021"
publish = false

[dependencies]
chrono = "*"
rayon = "*"
num_cpus = "*"

[dev-dependencies]
float-cmp = "*"

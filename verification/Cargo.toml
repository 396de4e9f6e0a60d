[package]
name = "hab_sup"
version = "0.1.0"
edition = "2021"
publish = false

[dependencies]
rustc-serialize = "*"
rand = "*"
num_cpus = "*"
toml = "*"
ansi_term = "*"

[package]
name = "coverage_distance"
version = "0.1.0"
edition = "2021"
publish = false

[dependencies]
clap = "=2.34.0"
csv = "=1.4.0"
indicatif = "0.17"
num = "=0.4.3"
num-format = "=0.4.4"
rayon = "=1.12.0"
slipstream = "=0.2.1"

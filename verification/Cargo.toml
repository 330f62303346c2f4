[package]
name = "cpa"
version = "0.1.0"
edition = "2021"
publish = false

[dependencies]
ndarray = "0.16"
ndarray-npy = "0.9"
indicatif = "*"
plotly = "*"
rayon = "*"
simple_bar = "*"

[package]
name = "rs_math"
version = "0.1.0"
edition = "2021"
publish = false

[dependencies]
indexmap = "2"
num-traits = "0.2"
rand = "0.9"
rand_distr = "0.5"

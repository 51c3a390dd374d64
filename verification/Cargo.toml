[package]
name = "random_graphs"
version = "0.1.0"
edition = "2021"
publish = false

[dependencies]
itertools = "0.10"
num-integer = "0.1"
petgraph = "0.6"
rand = "0.8"
thiserror = "1"

[package]
name = "russell_sparse"
version = "0.1.0"
edition = "2021"
publish = false

[dependencies]
rand = "0.8"
rand_distr = "0.4"
structopt = "0.3"

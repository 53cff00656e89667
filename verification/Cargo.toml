[package]
name = "matrix_nn"
version = "0.1.0"
edition = "2021"

[dependencies]
num-traits = "0.2"
rand = "0.8"
rayon = "1"

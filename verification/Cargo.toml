[package]
name = "mlrust"
version = "0.1.0"
edition = "2021"

[dependencies]
ndarray = "0.15"
num = "0.4"
rand = "0.8"

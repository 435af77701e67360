[package]
name = "mnist_digits"
version = "0.1.0"
edition = "2021"
publish = false

[dependencies]
csv = "1"
nn = "*"
serde_json = "1"
structopt = "0.3"

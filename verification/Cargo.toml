[package]
name = "rut-lib"
version = "0.1.0"
edition = "2021"
publish = false

[dependencies]
num-format = "0.4"
rand = "0.7"

[dev-dependencies]
regex = "1"

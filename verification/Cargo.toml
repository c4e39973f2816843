[package]
name = "textflow"
version = "0.1.0"
edition = "2021"
publish = false

[dependencies]
heapless = "*"
pasta_curves = "*"

[package]
name = "multiopen"
version = "0.1.0"
edition = "2021"
publish = false

[dependencies]
ff = "0.12"
group = "0.12"

[dev-dependencies]
pasta_curves = "0.4"

[package]
name = "tlc59xxx"
version = "0.1.0"
edition = "2021"
publish = false

[dependencies]
embedded-hal = "0.2"

[dev-dependencies]
rand = "0.8"

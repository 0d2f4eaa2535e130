[package]
name = "imag"
version = "0.1.0"
edition = "2021"
publish = false

[dependencies]
toml = "=0.5.11"
toml-query = "=0.10.0"
nom = "=3.2.1"
chrono = "=0.4.45"
regex = "=1.13.1"

[package]
name = "hibp_check"
version = "0.1.0"
edition = "2021"
publish = false

[dependencies]
sha1 = "0.6"
hex = "*"
num-format = "*"
reqwest = { version = "*", default-features = false, features = ["blocking"] }
rpassword = "*"
clap = "*"
pyo3 = "*"

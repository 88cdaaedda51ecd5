[package]
name = "cairo_native"
version = "0.1.0"
edition = "2021"
publish = false

[dependencies]
num-bigint = "0.4"
cairo-lang-sierra = "*"
bumpalo = "3"
libloading = "0.8"

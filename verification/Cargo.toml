[package]
name = "odata"
version = "0.1.0"
edition = "2021"
publish = false

[dependencies]
ariadne = "0.5"
jiff = "0.2"
rust_decimal = "1"

[dev-dependencies]
chumsky = "0.10"
logos = "0.15"

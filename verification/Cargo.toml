[package]
name = "nvpair"
version = "0.1.0"
edition = "2021"
publish = false

[dependencies]
cstr-argument = "0.1"
foreign-types = "0.5"
nvpair-sys = "*"

[package]
name = "inverse_conway"
version = "0.1.0"
edition = "2021"
publish = false

[dependencies]
z3 = "=0.10.0"

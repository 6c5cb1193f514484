[package]
name = "pars"
version = "0.1.0"
edition = "2021"
publish = false

[dependencies]
pars_libs = "*"
crossbeam = "*"

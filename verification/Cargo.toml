[package]
name = "sme"
version = "0.1.0"
edition = "2021"
publish = false

[dependencies]
clap = "2"
rayon = "1"
regex = "1"
subprocess = "0.2"

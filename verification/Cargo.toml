[package]
name = "tilde_unify"
version = "0.1.0"
edition = "2021"
publish = false

[dependencies]
clap = { version = "3", features = ["derive"] }
encoding_rs = "0.8"

[package]
name = "mrubyedge"
version = "0.1.0"
edition = "2021"
publish = false

[dependencies]
rand_core = "=0.10.1"
rand_xorshift = "=0.5.0"
clap = { version = "=4.6.7", features = ["derive"] }

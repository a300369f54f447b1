[package]
name = "edit_ini"
version = "0.1.0"
edition = "2021"
publish = false

[dependencies]
rust-ini = "*"
clap = { version = "*", features = ["cargo"] }

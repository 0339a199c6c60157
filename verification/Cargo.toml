[package]
name = "kbdmap"
version = "0.1.0"
edition = "2021"
publish = false

[dependencies]
unicode-normalization = "*"
convert_case = "*"
clap = { version = "3", features = ["derive"] }

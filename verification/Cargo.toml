[package]
name = "dca"
version = "0.1.0"
edition = "2021"
publish = false

[dependencies]
opus = "*"
byteorder = "*"
clap = "2"
serde = "*"
serde_derive = "*"
serde_json = "*"

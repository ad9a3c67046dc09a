[package]
name = "tce"
version = "0.1.0"
edition = "2021"
publish = false

[dependencies]
clap = "4"
las = "0.11"
text_io = "0.1"

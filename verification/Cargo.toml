[package]
name = "sims3_rs"
version = "0.1.0"
edition = "2021"
publish = false

[dependencies]
byteorder = "1"
binrw = "0.11"
structopt = "0.3"
rayon = "1"
walkdir = "2"
dirs = "*"
dont_disappear = "*"

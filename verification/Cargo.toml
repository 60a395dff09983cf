[package]
name = "nutexb_swizzle"
version = "0.1.0"
edition = "2021"

[dependencies]
ahash = "0.7"
binread = "2"
clap = "2"
ddsfile = "0.4"
rayon = "1"

[package]
name = "dip"
version = "0.1.0"
edition = "2021"
publish = false

[dependencies]
structopt = "0.3"
toml = "0.5"
unicode-segmentation = "1"

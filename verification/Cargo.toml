[package]
name = "svd2rust"
version = "0.1.0"
edition = "2021"
publish = false

[dependencies]
regex = "1"
inflections = "1.1"
svd-parser = "0.14"
clap = "2"
term = "0.4"
term-painter = "0.2"
lazy_static = "1"
libc = "0.2"

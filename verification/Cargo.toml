[package]
name = "dar"
version = "0.1.0"
edition = "2021"
publish = false

[dependencies]
blake3 = "*"
brotli = "*"
zstd = "*"
xz2 = "*"
clap = "*"
color-eyre = "*"
eyre = "*"
filetime = "*"
ignore = "*"
term = "*"

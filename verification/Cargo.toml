[package]
name = "yclass"
version = "0.1.0"
edition = "2021"
publish = false

[dependencies]
memmap2 = "=0.9.11"
memflex = { version = "=0.8.4", features = ["external"] }
libloading = "=0.9.0"
minidump = "=0.27.0"
eyre = "=0.6.14"

[package]
name = "ws28xx"
version = "0.1.0"
edition = "2021"
publish = false

[dependencies]
bitvec = "=1.1.1"
embedded-hal = "1"
embedded-time = "=0.12.1"

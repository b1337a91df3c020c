[package]
name = "axcore"
version = "0.1.0"
edition = "2021"
publish = false

[dependencies]
bitmap-allocator = "=0.1.0"
rlsf = "=0.2.3"
riscv = "=0.10.1"

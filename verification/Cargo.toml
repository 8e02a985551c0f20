[package]
name = "dandelion"
version = "0.1.0"
edition = "2021"
publish = false

[dependencies]
cryptoxide = "=0.4.4"
blake2s_simd = "=1.0.5"
constant_time_eq = "=0.4.2"
anyhow = "=1.0.104"
dlopen = "=0.1.8"
dlopen_derive = "=0.1.4"
linkme = "=0.3.37"
zeroize = "=1.9.0"

[package]
name = "zeta"
version = "0.1.0"
edition = "2021"
publish = false

[dependencies]
anyhow = "1.0"
log = "0.4"
similar = "1.3"
time = "0.3"

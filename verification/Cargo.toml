[package]
name = "uchan"
version = "0.1.4"
edition = "2021"
publish = false

[dependencies]
cache-padded = "=1.3.0"
core_affinity = "=0.8.3"
crossbeam-channel = "=0.5.17"
flume = "=0.12.0"

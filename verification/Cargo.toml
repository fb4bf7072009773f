[package]
name = "vector_segment"
version = "0.1.0"
edition = "2021"
publish = false

[dependencies]
itertools = "0.14"
log = "0.4"
parking_lot = "0.12"
zerocopy = "0.8"

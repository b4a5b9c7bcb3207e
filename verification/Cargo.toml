[package]
name = "xarc"
version = "0.3.0"
edition = "2021"
publish = false

[dependencies]
crossbeam-epoch = "=0.9.21"
crossbeam-utils = "=0.8.23"

[dev-dependencies]
rayon = "1"

[package]
name = "kvstore"
version = "0.1.0"
edition = "2021"
publish = false

[dependencies]
lmdb-rkv = "=0.14.0"

[dev-dependencies]
tempfile = "=3.27.0"
crossbeam-utils = "=0.8.23"

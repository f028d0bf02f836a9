[package]
name = "lockfree_cell"
version = "0.1.0"
edition = "2021"
publish = false

[dependencies]
seize = "*"
crossbeam-utils = "*"
nohash-hasher = "*"

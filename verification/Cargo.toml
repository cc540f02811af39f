[package]
name = "treesum"
version = "0.1.0"
edition = "2021"
publish = false

[dependencies]
sha1 = "0.10"
memmap = "0.7"
parking_lot = "*"
rayon = "*"

[package]
name = "crawl_frontier"
version = "0.1.0"
edition = "2021"
publish = false

[dependencies]
rocksdb = "*"
rkyv = { version = "0.7", features = ["validation"] }
bincode = "1"
rand = "0.8"
url = "2"

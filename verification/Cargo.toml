[package]
name = "c2zk"
version = "0.1.0"
edition = "2021"
publish = false

[dependencies]
indexmap = "*"
topological-sort = "*"

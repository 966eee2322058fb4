[package]
name = "ui4"
version = "0.1.0"
edition = "2021"
publish = false

[dependencies]
crossbeam-channel = "0.5"
dashmap = "5"
ahash = "0.7"
smallvec = "1"
slotmap = "1"
kdl = "3"
anyhow = "1"
fontdue = "0.6"
morphorm = "*"

[package]
name = "samply_core"
version = "0.1.0"
edition = "2021"
publish = false

[dependencies]
uuid = "=1.29.0"
debugid = "=0.8.0"
memchr = "=2.8.3"
regex = "=1.13.1"
bitvec = "=1.1.1"
serde = { version = "=1.0.229", features = ["derive"] }
serde_json = "=1.0.154"
pdb = "=0.8.0"
range-collections = "=0.1.2"

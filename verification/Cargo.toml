[package]
name = "rust_kvs"
version = "0.1.0"
edition = "2021"
publish = false

[dependencies]
adler32 = "1"

[dev-dependencies]
tinyjson = "2"

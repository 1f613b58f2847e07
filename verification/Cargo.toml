[package]
name = "ext_host"
version = "0.1.0"
edition = "2021"
publish = false

[dependencies]
clap = { version = "=4.5.61", features = ["derive"] }
wasmtime = "=44.0.3"

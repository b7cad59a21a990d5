[package]
name = "balius"
version = "0.1.0"
edition = "2021"
publish = false

[dependencies]
pallas = "=1.4.0"
redb = "=4.4.0"
serde_json = "=1.0.154"
thiserror = "=1.0.69"
tracing = "=0.1.44"
wasmtime = { version = "=36.0.19", default-features = false }

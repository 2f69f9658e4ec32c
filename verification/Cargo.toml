[package]
name = "atomic_core"
version = "0.1.0"
edition = "2021"
publish = false

[dependencies]
actix = "0.13"
actix-web = { version = "4.11", default-features = false, features = ["macros", "ws"] }
actix-web-actors = "4"
base64 = "=0.22.1"
clap = { version = "4.5", features = ["derive"] }
colored = "2"
dirs = "5"
promptly = { version = "0.3", default-features = false }
rand = "=0.8.8"
regex = "=1.13.1"
ring = "=0.17.14"
serde = { version = "1", features = ["derive"] }
serde_json = { version = "=1.0.154", features = ["float_roundtrip"] }
sled = "=0.34.7"
tantivy = { version = "0.22", default-features = false, features = ["mmap"] }
tokio = { version = "1", features = ["rt", "macros"] }
tracing = "0.1"
url = "=2.5.8"
urlencoding = "=2.1.3"
wasmtime = { version = "=38.0.4", default-features = false, features = ["runtime", "cranelift", "component-model", "async", "std"] }
wasmtime-wasi = "=38.0.4"
yrs = "0.24"

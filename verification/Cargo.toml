[package]
name = "mini_http"
version = "0.1.0"
edition = "2021"
publish = false

[dependencies]
http-types = { version = "=2.10.0", default-features = false }
simd-json = "=0.18.1"
serde = { version = "=1.0.229", features = ["derive"] }
thiserror = "=2.0.21"
tracing = "=0.1.44"
tracing-subscriber = "=0.3.23"
async-trait = "=0.1.92"
monoio = "=0.2.4"

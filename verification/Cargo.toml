[package]
name = "dtbh"
version = "0.1.0"
edition = "2021"
publish = false

[dependencies]
base64 = "0.21"
serde = { version = "1", features = ["derive"] }
serde_json = "1"
urlencoding = "2"
anyhow = "1"
clap = { version = "4", features = ["derive"] }
dirs = "5"
reqwest = { version = "0.11", default-features = false, features = ["blocking", "json", "cookies", "rustls-tls"] }
wasmbus-rpc = "*"
wasmcloud-interface-httpserver = "*"
wasmcloud-interface-httpclient = "*"
wasmcloud-interface-messaging = "*"
wasmcloud-interface-logging = "*"
tokio = { version = "1", features = ["full"] }
futures = "0.3"
async-trait = "0.1"
once_cell = "1"
tracing = "0.1"
trust-dns-resolver = "0.22"
indexmap = "1"

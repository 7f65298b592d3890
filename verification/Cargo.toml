[package]
name = "stitch"
version = "0.1.0"
edition = "2021"
publish = false

[dependencies]
async-trait = "0.1"
fjall = "3"
flume = "*"
futures = "0.3"
js-sys = "0.3"
mqdb-agent = "*"
mqdb-core = "*"
mqtt5 = "*"
mqtt5-protocol = "*"
quinn = { version = "0.11", default-features = false, features = ["runtime-tokio", "rustls-ring"] }
rand = "*"
rcgen = { version = "*", default-features = false, features = ["crypto", "ring", "pem"] }
ring = "0.17"
rustls = { version = "0.23", default-features = false, features = ["ring", "std", "tls12"] }
serde = { version = "1", features = ["derive"] }
serde_json = "1"
tempfile = "3"
thiserror = "2"
tokio = { version = "1", features = ["full"] }
tracing = "0.1"
uuid = { version = "1", features = ["v4", "v7"] }
wasm-bindgen = "0.2"
wasm-bindgen-futures = "0.4"

[package]
name = "hyper-util"
version = "0.1.0"
edition = "2021"
publish = false

[dependencies]
base64 = "0.22"
bytes = "1"
futures-channel = "0.3"
futures-util = "0.3"
http = "1"
http-body = "1"
hyper = { version = "1", features = ["client", "server", "http1", "http2"] }
ipnet = "2"
parking_lot = "0.12"
percent-encoding = "2"
pin-project-lite = "0.2"
slab = "0.4"
socket2 = { version = "0.6", features = ["all"] }
tokio = { version = "1", features = ["net", "rt", "time", "sync", "io-util"] }
tower = { version = "0.5", features = ["util", "make"] }
tower-layer = "0.3"
tower-service = "0.3"
tracing = "0.1"

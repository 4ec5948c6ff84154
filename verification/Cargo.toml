[package]
name = "sak"
version = "0.1.0"
edition = "2021"
publish = false

[dependencies]
anyhow = "1"
clap = { version = "4", features = ["derive"] }
http-body-util = "0.1"
hyper = { version = "1", features = ["client", "http1"] }
hyper-util = { version = "0.1", features = ["client", "client-legacy", "http1", "tokio"] }
hyperlocal = "0.9"
k8s-openapi = { version = "*", features = ["latest"] }
kube = { version = "*", features = ["client", "rustls-tls"] }
regex = "1"
serde_json = "1"
tokio = { version = "1", features = ["rt", "macros", "time", "net"] }
ureq = "2"
walkdir = "2"

[package]
name = "p1_exporter"
version = "0.1.0"
edition = "2021"
publish = false

[dependencies]
prometheus = "0.14"
clap = { version = "4", features = ["derive"] }
tokio = { version = "1", features = ["rt-multi-thread", "macros", "net", "io-util"] }
tokio-serial = "5"
hyper = { version = "1", features = ["server", "http1"] }
hyper-util = { version = "0.1", features = ["tokio"] }
http-body-util = "0.1"
log = "0.4"

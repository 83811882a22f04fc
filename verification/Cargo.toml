[package]
name = "sensor_bridge"
version = "0.1.0"
edition = "2021"
publish = false

[dependencies]
crc32fast = "1"
hyper = { version = "0.14", features = ["server", "http1", "tcp", "runtime"] }
tokio = { version = "1", features = ["fs", "io-util", "rt-multi-thread", "macros", "time", "sync", "net"] }
prometheus = "0.13"
lazy_static = "1"

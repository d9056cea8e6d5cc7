[package]
name = "noobkio"
version = "0.1.0"
edition = "2021"
publish = false

[dependencies]
rand = "0.9"
mio = { version = "1", features = ["net", "os-poll"] }
tokio = { version = "1", features = ["rt-multi-thread", "macros", "time", "sync"] }

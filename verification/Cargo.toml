[package]
name = "minihttp"
version = "0.1.0"
edition = "2021"
publish = false

[dependencies]
httpdate = "=1.0.3"
mime_guess = "=2.0.5"
tokio = { version = "=1.53.2", features = ["net", "io-util", "time", "rt", "sync", "fs"] }
bytes = "=1.12.1"
tokio-stream = "=0.1.19"
tokio-util = { version = "=0.7.19", features = ["io"] }

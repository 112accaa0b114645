[package]
name = "leech"
version = "0.1.0"
edition = "2021"
publish = false

[dependencies]
sha1 = "0.10"
rand = "0.8"
tokio = { version = "1", features = ["rt-multi-thread", "macros", "net", "io-util", "time", "fs"] }
hyper = { version = "0.14", features = ["client", "http1", "tcp"] }
url = "2"
clap = { version = "4", features = ["derive"] }

[package]
name = "ntp_proto"
version = "0.1.0"
edition = "2021"
publish = false

[dependencies]
libc = "0.2"
timestamped-socket = "*"
tokio = { version = "1", features = ["rt-multi-thread", "macros", "net", "time", "sync", "io-util"] }
tracing = "0.1"
tracing-subscriber = { version = "0.3", features = ["env-filter"] }
clap = { version = "4", features = ["derive"] }

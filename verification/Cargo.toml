[package]
name = "mortis"
version = "0.1.0"
edition = "2021"
publish = false

[dependencies]
anyhow = "*"
axum = "*"
axum-extra = { version = "*", features = ["typed-header"] }
clap = { version = "*", features = ["derive"] }
ipset = "*"
iptables = "*"
tokio = { version = "*", features = ["rt-multi-thread", "macros", "signal", "sync", "time", "net"] }
tower-http = { version = "*", features = ["trace", "timeout"] }

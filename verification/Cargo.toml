[package]
name = "portscan"
version = "0.1.0"
edition = "2021"
publish = false

[dependencies]
cidr-utils = "0.5"
clap = { version = "4", features = ["derive"] }
futures = "0.3"
rlimit = "*"
threadpool = "1"
tokio = { version = "1", features = ["net", "time", "rt-multi-thread", "macros"] }
trust-dns-resolver = "*"

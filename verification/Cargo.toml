[package]
name = "flatnet"
version = "0.1.0"
edition = "2021"
publish = false

[dependencies]
serde = { version = "*", features = ["derive"] }
serde_json = "*"
fs2 = "*"
libc = "*"
nix = { version = "0.26", features = ["sched"] }
tokio = { version = "*", features = ["rt-multi-thread"] }
futures = "*"
rtnetlink = "0.14"
netlink-packet-route = "0.19"

[package]
name = "nispor_ip"
version = "0.1.0"
edition = "2021"
publish = false

[dependencies]
futures = "*"
log = "*"
netlink-packet-route = "*"
rtnetlink = "*"
serde = { version = "*", features = ["derive"] }

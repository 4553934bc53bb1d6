[package]
name = "mapecd"
version = "0.1.0"
edition = "2021"
publish = false

[dependencies]
anyhow = "1"
aya = "0.13"
aya-ebpf = "0.1"
clap = { version = "4", features = ["derive"] }
dhcproto = "*"
futures = "0.3"
ipnet = { version = "2.12", features = ["serde"] }
libc = "0.2"
netlink-packet-core = "0.7"
netlink-packet-route = "0.19"
netlink-packet-utils = "0.5"
nix = { version = "0.29", features = ["net", "socket", "inotify"] }
rand = "0.9"
rtnetlink = "0.14"
serde = { version = "1", features = ["derive"] }
serde_json = "1"
socket2 = { version = "0.5", features = ["all"] }
thiserror = "2"
tokio = { version = "1", features = ["full"] }
tokio-util = "0.7"
toml = "0.8"
tracing = "0.1"
tracing-journald = "0.3"
tracing-subscriber = { version = "0.3", features = ["env-filter"] }

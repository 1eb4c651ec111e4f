[package]
name = "iroh_lan"
version = "0.1.0"
edition = "2021"
publish = false

[dependencies]
actor-helper = { version = "=0.3.0", default-features = false, features = ["anyhow", "tokio"] }
anyhow = "=1.0.104"
blake3 = "=1.8.7"
bytes = "=1.12.1"
chrono = { version = "=0.4.45", default-features = false, features = ["now"] }
futures = "=0.3.34"
futures-lite = "=2.6.1"
ipnet = "=2.12.2"
iroh = { version = "=1.4.1", default-features = false, features = ["qlog", "tls-ring"] }
iroh-gossip = { version = "=0.101.0", default-features = false, features = ["net"] }
n0-watcher = "=1.0.1"
netwatch = "=0.19.3"
noq-proto = "=1.4.0"
pnet_packet = "=0.35.0"
postcard = { version = "=1.1.3", default-features = false, features = ["use-std"] }
rand = "=0.10.3"
serde = { version = "=1.0.229", features = ["derive"] }
sha2 = "=0.10.9"
tokio = { version = "=1.54.1", features = ["full"] }
tracing = "=0.1.44"
z32 = "=1.3.0"

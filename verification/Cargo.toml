[package]
name = "streamdb"
version = "0.1.0"
edition = "2021"
publish = false

[dependencies]
aho-corasick = "=0.7.20"
async-trait = "=0.1.92"
bytes = "=1.12.1"
chrono = "=0.4.45"
fail = "=0.5.1"
fixedbitset = "=0.4.2"
futures = "=0.3.34"
lazy_static = "=1.5.1"
num-traits = "=0.2.19"
parking_lot = "=0.12.5"
prometheus = "=0.13.4"
rand = "=0.8.8"
rdkafka = "=0.28.0"
serde = { version = "=1.0.229", features = ["derive"] }
serde_json = { version = "=1.0.154", features = ["float_roundtrip"] }
thiserror = "=1.0.69"
tokio = { version = "=1.54.1", features = ["macros", "rt", "rt-multi-thread", "sync", "time"] }
toml = "=0.5.11"
tracing = "=0.1.44"
uuid = { version = "=1.29.0", features = ["v4"] }

[dev-dependencies]

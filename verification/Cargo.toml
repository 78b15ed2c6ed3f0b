[package]
name = "crossgate"
version = "0.1.0"
edition = "2021"
publish = false

[dependencies]
anyhow = "=1.0.104"
async-trait = "=0.1.92"
bytes = "=1.12.1"
crossbeam = "=0.8.5"
dotenv = "=0.15.0"
etcd-client = "=0.8.4"
futures = "=0.3.34"
hyper = { version = "=0.14.32", features = ["client", "server", "http1", "tcp"] }
lazy_static = "=1.5.1"
local-ip-address = "=0.6.13"
log = "=0.4.34"
mongodb = "=2.8.2"
once_cell = "=1.21.4"
rand = "=0.8.8"
rs-consul = "=0.15.0"
serde = { version = "=1.0.229", features = ["derive"] }
serde_json = "=1.0.154"
thiserror = "=1.0.69"
tokio = { version = "=1.54.1", features = ["rt-multi-thread", "macros", "signal", "net", "io-util", "time", "sync"] }
tokio-context = "=0.1.3"
url = "=2.5.8"

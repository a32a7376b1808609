[package]
name = "ruuvi_collector"
version = "0.1.0"
edition = "2021"
publish = false

[dependencies]
url = "2"
time = { version = "0.3", features = ["formatting", "macros"] }
tokio = { version = "1", features = ["rt-multi-thread", "macros", "time", "signal", "sync"] }
tokio-postgres = { version = "0.7", features = ["with-time-0_3"] }
postgres-openssl = "0.5"
openssl = "0.10"
bluer = { version = "0.17", features = ["bluetoothd"] }
futures-util = "0.3"
log = "0.4"
env_logger = "0.11"
dotenv = "0.15"

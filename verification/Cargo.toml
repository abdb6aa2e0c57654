[package]
name = "yb_load_balance"
version = "0.1.0"
edition = "2021"
publish = false

[dependencies]
futures-util = { version = "0.3", default-features = false, features = ["std", "async-await"] }
lazy_static = "1"
log = "0.4"
rand = "0.8"
tokio = { version = "1", features = ["net", "rt", "sync", "time"] }

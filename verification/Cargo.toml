[package]
name = "vda_sim"
version = "0.1.0"
edition = "2021"
publish = false

[dependencies]
quick-xml = "*"
serde = { version = "1", features = ["derive"] }
serde_json = "1"
thiserror = "*"
tokio = { version = "1", features = ["rt-multi-thread", "macros", "time", "sync"] }
futures-util = "0.3"
paho-mqtt = "*"
config-file = "*"

[package]
name = "gpiocdev"
version = "0.1.0"
edition = "2021"
publish = false

[dependencies]
gpiocdev-uapi = { version = "=0.7.0", features = ["uapi_v1", "uapi_v2"] }
futures = "=0.3.34"
tokio = { version = "=1.54.1", features = ["net", "rt", "time", "macros"] }
tokio-stream = "=0.1.19"
async-io = "=2.6.0"
thiserror = "=1.0.69"

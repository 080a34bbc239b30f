[package]
name = "metta_bus_client"
version = "0.1.0"
edition = "2021"
publish = false

[dependencies]
md5 = "=0.8.1"
log = "=0.4.34"
env_logger = "=0.11.11"
tokio = { version = "=1.53.2", features = ["rt-multi-thread", "time", "net", "macros"] }
tonic = "=0.14.6"
tonic-prost = "*"
prost = "=0.14.4"

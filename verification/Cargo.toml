[package]
name = "scale_to_zero"
version = "0.1.0"
edition = "2021"
publish = false

[dependencies]
anyhow = "1"
aya = { version = "=0.13.1", features = ["async_tokio"] }
aya-log = "=0.2.1"
bytes = "1"
env_logger = "0.10"
futures = "0.3"
k8s-openapi = { version = "=0.20.0", features = ["v1_28"] }
kube = { version = "=0.87.2", features = ["runtime", "client"] }
log = "0.4"
network-interface = "1"
once_cell = "1"
tokio = { version = "1", features = ["macros", "rt", "rt-multi-thread", "net", "signal", "time"] }

[package]
name = "bond"
version = "0.1.0"
edition = "2021"
publish = false

[dependencies]
kube = { version = "*", features = ["runtime", "derive"] }
k8s-openapi = { version = "*", features = ["latest"] }
tokio = { version = "*", features = ["macros", "rt-multi-thread", "signal", "sync", "time"] }
futures = "*"
serde = { version = "*", features = ["derive"] }
serde_json = "*"
schemars = "*"
thiserror = "*"
log = "*"
env_logger = "*"

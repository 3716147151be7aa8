[package]
name = "chimera"
version = "0.1.0"
edition = "2021"
publish = false

[dependencies]
sha2 = "=0.11.0"
rand = "=0.10.3"
rand_distr = "=0.6.0"
headless_chrome = "=0.9.0"
tokio = { version = "=1.53.2", features = ["full"] }
hyper = { version = "=1.12.0", features = ["full"] }
hyper-util = { version = "=0.1.21", features = ["full"] }
http-body-util = "=0.1.5"
bytes = "=1.12.1"
serde = { version = "=1.0.229", features = ["derive"] }
serde_json = "=1.0.151"
redis = { version = "=1.7.1", features = ["tokio-comp"] }
image = "=0.25.10"
tracing = "=0.1.44"
tracing-subscriber = "=0.3.23"

[package]
name = "apostle_client"
version = "0.1.0"
edition = "2021"
publish = false

[dependencies]
acai_core = "=0.9.0"
colored = "=3.1.1"
dusa_collection_utils = "=4.0.2"
rand = "=0.10.3"
serde = { version = "=1.0.229", features = ["derive"] }
serde_json = "=1.0.154"
simple_comms = "=2.0.1"
sqlx = { version = "=0.9.0", default-features = false, features = ["sqlite", "runtime-tokio"] }
tokio = { version = "=1.54.1", features = ["full"] }

[dev-dependencies]
tempfile = "=3.27.0"

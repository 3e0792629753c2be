[package]
name = "scoped_router"
version = "0.1.0"
edition = "2021"
publish = false

[dependencies]
path-tree = "=0.1.12"
hyper = { version = "=0.14.32", features = ["stream"] }
anyhow = "=1.0.104"
async-trait = "=0.1.92"
bytes = "=1.12.1"
cookie = { version = "=0.18.2", features = ["percent-encode"] }
form-data = "=0.6.0"
futures-util = "=0.3.34"
mime = "=0.3.17"
serde = { version = "=1.0.229", features = ["derive"] }
serde_json = "=1.0.154"
serde_urlencoded = "=0.7.1"

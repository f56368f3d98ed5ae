[package]
name = "utxoquery"
version = "0.1.0"
edition = "2021"
publish = false

[dependencies]
bitcoin = "=0.32.102"
hex = "=0.4.3"
serde = { version = "=1.0.229", features = ["derive"] }
serde_json = "=1.0.151"
url = "=2.5.8"
hyper = { version = "=0.14.32", features = ["http1", "server", "client", "tcp"] }
hyperlocal = "=0.8.0"
tokio = { version = "=1.53.2", features = ["rt-multi-thread", "sync", "macros"] }

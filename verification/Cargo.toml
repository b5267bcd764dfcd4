[package]
name = "whoami_server"
version = "0.1.0"
edition = "2021"
publish = false

[dependencies]
axum = "=0.8.9"
bytes = "=1.12.1"
futures-util = "=0.3.34"
pnet = "=0.35.0"
tokio = { version = "=1.53.2", features = ["full"] }
whoami = "=2.1.3"

[package]
name = "coderunner"
version = "0.1.0"
edition = "2021"
publish = false

[dependencies]
url = "=2.5.8"
tar = "=0.4.46"
hyper = "=0.11.27"
hyperlocal = "=0.4.1"
tokio-core = "=0.1.18"
futures = "=0.1.31"
futures-cpupool = "=0.1.8"
serde = { version = "=1.0.229", features = ["derive"] }
serde_json = "=1.0.151"

[package]
name = "pythonbuild"
version = "0.1.0"
edition = "2021"
publish = false

[dependencies]
anyhow = "1"
bytes = "1"
clap = "4"
futures = "0.3"
hex = "=0.4.3"
octocrab = "=0.44.1"
pep440_rs = "=0.7.3"
rayon = "1"
reqwest = { version = "0.12", features = ["stream"] }
reqwest-middleware = "*"
reqwest-retry = "*"
serde_json = "1"
sha2 = "=0.10.9"
tokio = { version = "1", features = ["fs", "io-util", "macros", "rt-multi-thread", "time"] }
tokio-util = { version = "0.7", features = ["io"] }
url = "2"
zip = "*"

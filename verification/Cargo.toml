[package]
name = "webhook"
version = "0.1.0"
edition = "2021"
publish = false

[dependencies]
async-trait = "0.1"
base64 = "0.13"
crossbeam-channel = "0.5"
env_logger = "0.9"
envy = "0.4"
futures = "0.3"
google-pubsub1 = "2"
http = "0.2"
hyper = { version = "0.14", features = ["full"] }
hyper-rustls = "0.22"
log = "0.4"
reqwest = { version = "0.11", default-features = false, features = ["rustls-tls"] }
serde = { version = "1", features = ["derive"] }
serde_json = "1"
serde_yaml = "0.8"
signal-hook = "0.3"
thiserror = "1"
tokio = { version = "1", features = ["macros", "rt-multi-thread", "time"] }
walkdir = "2"
yup-oauth2 = "5"

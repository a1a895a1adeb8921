[package]
name = "stream_join"
version = "0.1.0"
edition = "2021"
publish = false

[dependencies]
agent-stream-kit = { version = "=0.19.0", default-features = false }
im = "=15.1.0"
serde_json = "=1.0.154"
serde_yaml_ng = "=0.10.0"

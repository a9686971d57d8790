[package]
name = "lro"
version = "0.1.0"
edition = "2021"
publish = false

[dependencies]
http = "=0.2.12"
prost = "=0.10.4"
prost-types = "=0.10.1"
tonic = { version = "=0.7.2", features = ["compression"] }
tokio = { version = "=1.54.1", features = ["sync", "time"] }

[package]
name = "counter_hub"
version = "0.1.0"
edition = "2021"
publish = false

[dependencies]
sled = "=0.34.7"
actix-web = "=4.15.0"
actix-rt = "=2.15.0"
actix-cors = "=0.7.2"
actix-files = "=0.7.0"
futures-core = "=0.3.34"

[package]
name = "mqtt_client"
version = "0.1.0"
edition = "2021"
publish = false

[dependencies]
heapless = "0.8"
embedded-time = "0.12"
embedded-io-async = "0.6"
embassy-time = "*"

[package]
name = "bank_data"
version = "0.1.0"
edition = "2021"
publish = false

[dependencies]
chrono = "0.4"
calamine = "*"
async-std = "*"
futures = "0.3"
futures-io = "0.3"
eyre = "0.6"
stable-eyre = "*"
log = "0.4"
simplelog = "*"
csv-async = "*"
hyper = { version = "1", features = ["client", "http1"] }
async-tls = "*"
http-body-util = "*"

[package]
name = "crawler"
version = "0.1.0"
edition = "2021"
publish = false

[dependencies]
url = "=2.5.8"
html5ever = "=0.39.0"
markup5ever_rcdom = "=0.39.0"
hyper = "=0.11.27"
futures = "=0.1.31"
tokio-core = "=0.1.18"
error-chain = "=0.12.4"

[package]
name = "tinyserver"
version = "0.1.0"
edition = "2021"
publish = false

[dependencies]
http_parser = "*"
threadpool = "*"

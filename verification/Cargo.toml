[package]
name = "upload_core"
version = "0.1.0"
edition = "2021"
publish = false

[dependencies]
actix-web = "4"
actix-files = "0.6"
futures-util = "0.3"
env_logger = "0.11"

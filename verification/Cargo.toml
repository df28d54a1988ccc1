[package]
name = "env_inject"
version = "0.1.0"
edition = "2021"
publish = false

[dependencies]
axum = { version = "0.6", features = ["headers"] }
tower-http = { version = "0.4", features = ["fs"] }
http-body = "0.4"

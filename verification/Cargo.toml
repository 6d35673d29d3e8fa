[package]
name = "dash_cache"
version = "0.1.0"
edition = "2021"
publish = false

[dependencies]
jni = "0.21"
log = "0.4"
simplelog = "0.12"
chrono = "0.4"

[package]
name = "engine_core"
version = "0.1.0"
edition = "2021"
publish = false

[dependencies]
mongodb = "2"
chrono = "0.4"
enumflags2 = "0.7"
tracing = "0.1"
tracing-error = "0.2"

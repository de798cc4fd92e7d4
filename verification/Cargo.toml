[package]
name = "mihttp"
version = "0.1.0"
edition = "2021"
publish = false

[dependencies]
hyper = { version = "0.14", features = ["client", "server", "http1", "tcp"] }
tokio = { version = "1", features = ["rt-multi-thread", "macros", "fs", "io-util"] }

[dev-dependencies]
nom = "7"

[package]
name = "sni_fragment"
version = "0.1.0"
edition = "2021"
publish = false

[dependencies]
rand = "0.8"
serde = { version = "1", features = ["derive"] }
tokio = { version = "1", features = ["net", "io-util", "time", "rt"] }

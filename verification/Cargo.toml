[package]
name = "forecaster"
version = "0.1.0"
edition = "2021"
publish = false

[dependencies]
chrono = "=0.4.45"
jpholiday = "=0.1.4"
smartcore = { version = "=0.2.1", features = ["nalgebra-bindings"] }
nalgebra = "=0.23.2"
clap = "=2.34.0"
reqwest = { version = "=0.11.27", default-features = false, features = ["blocking", "rustls-tls"] }
serde = { version = "=1.0.229", features = ["derive"] }
serde_json = "=1.0.154"
google-calendar3 = "=7.0.0"

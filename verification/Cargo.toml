[package]
name = "vpm"
version = "0.1.0"
edition = "2021"
publish = false

[dependencies]
futures = "0.3"
indexmap = "2"
itertools = "0.11"
log = "0.4"
reqwest = { version = "0.11", default-features = false, features = ["rustls-tls"] }
serde = { version = "1", features = ["derive"] }
serde_json = "1"
tokio = { version = "1", features = ["fs", "io-util"] }
uuid = { version = "1", features = ["v4"] }
windows = { version = "0.48", features = ["Win32_Foundation", "Win32_System_Com", "Win32_UI_Shell"] }

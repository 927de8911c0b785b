[package]
name = "tapcode"
version = "0.1.0"
edition = "2021"
publish = false

[dependencies]
chrono = { version = "0.4", features = ["serde"] }
uuid = { version = "1", features = ["v4", "serde"] }
serde = { version = "1", features = ["derive"] }
serde_json = "1"
log = "0.4"
reqwest = { version = "0.12", default-features = false }
dioxus = { version = "*", features = ["router"] }
web-sys = { version = "0.3", features = ["Window", "Storage"] }

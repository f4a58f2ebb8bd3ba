[package]
name = "courier"
version = "0.1.0"
edition = "2021"
publish = false

[dependencies]
ctrlc = "3"
futures = "0.3"
prost = "0.12"
serde = { version = "1", features = ["derive"] }
serde_json = { version = "1", features = ["preserve_order"] }
tokio = { version = "1", features = ["macros", "rt", "sync", "time"] }
urlencoding = "2"
uuid = { version = "1", features = ["v4"] }
warp = { version = "0.3", features = ["tls"] }

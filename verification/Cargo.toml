[package]
name = "scada"
version = "0.1.0"
edition = "2021"
publish = false

[dependencies]
serde = { version = "1", features = ["derive"] }
serde_json = "1"
rumqttc = { version = "0.24", features = ["websocket"] }
tokio = { version = "1", features = ["rt-multi-thread", "time"] }

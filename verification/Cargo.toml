[package]
name = "robot_admin"
version = "0.1.0"
edition = "2021"
publish = false

[dependencies]
axum = "=0.8.9"
chrono = "=0.4.45"
prost = "*"
serde = { version = "=1.0.229", features = ["derive"] }
serde_json = "=1.0.154"
tokio = { version = "=1.54.1", features = ["full"] }
tonic = "=0.14.6"
tonic-prost = "*"
tower-http = { version = "=0.7.1", features = ["fs"] }
uuid = { version = "=1.29.0", features = ["v4"] }

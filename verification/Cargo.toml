[package]
name = "glacier_slide"
version = "0.1.0"
edition = "2021"
publish = false

[dependencies]
rand = "0.9"
clap = { version = "4", features = ["derive"] }
clap-num = "*"
crossterm = "*"
serde = { version = "1", features = ["derive"] }
serde_json = "1"
axum = "*"
tokio = { version = "1", features = ["full"] }
tower-http = { version = "*", features = ["cors"] }
tracing = "*"
tracing-subscriber = "*"
thousands = "*"
time-elapsed = "*"

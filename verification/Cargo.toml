[package]
name = "jobsdone"
version = "0.1.0"
edition = "2021"
publish = false

[dependencies]
jiff = "0.2"
serde = { version = "1", features = ["derive"] }
serde_json = "1"
unicode-normalization = "0.1"
crossterm = "*"
xdg = "*"
tracing = "0.1"
tracing-subscriber = { version = "0.3", features = ["env-filter"] }

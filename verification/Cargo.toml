[package]
name = "prediction_market"
version = "0.1.0"
edition = "2021"
publish = false

[dependencies]
parity-scale-codec = { version = "3", features = ["derive", "max-encoded-len"] }
scale-info = { version = "2", features = ["derive"] }
frame-support = "*"
frame-system = "*"

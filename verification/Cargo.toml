[package]
name = "delta_lima"
version = "0.1.0"
edition = "2021"
publish = false

[dependencies]
r2d2_postgres = "*"
toml = "*"
serde = { version = "*", features = ["derive"] }
ctrlc = "*"
chrono = "*"
uuid = { version = "*", features = ["v4"] }

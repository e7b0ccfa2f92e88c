[package]
name = "ble"
version = "0.1.0"
edition = "2021"
publish = false

[dependencies]
anyhow = "*"
btleplug = "*"
log = "*"
palette = "*"
reqwest = { version = "*", default-features = false, features = ["blocking"] }
rouille = { version = "*", default-features = false }
serde = { version = "*", features = ["derive"] }
serde_json = "*"
uuid = "*"

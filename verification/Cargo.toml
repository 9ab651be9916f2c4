[package]
name = "fotd_bot"
version = "0.1.0"
edition = "2021"
publish = false

[dependencies]
afire = "1"
chrono = "0.4"
lettre = { version = "0.10", default-features = false, features = ["builder", "smtp-transport", "native-tls"] }
parking_lot = "0.12"
rand = "0.8"
rusqlite = "0.28"
serde_json = "1"
simple_config_parser = "*"
ureq = { version = "2", default-features = false }

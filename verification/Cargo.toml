[package]
name = "godot-bevy"
version = "0.1.0"
edition = "2021"
publish = false

[dependencies]
bevy = { version = "=0.16.1", default-features = false, features = ["std", "bevy_asset", "bevy_log"] }
godot = "=0.4.5"
tracing = "=0.1.44"
tracing-subscriber = { version = "=0.3.23", features = ["env-filter"] }
chrono = "=0.4.45"
parking_lot = "=0.12.5"
thiserror = "=2.0.21"
inventory = "=0.3.25"

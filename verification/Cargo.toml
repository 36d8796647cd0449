[package]
name = "godot-bevy"
version = "0.1.0"
edition = "2021"
publish = false

[dependencies]
bevy_platform = "=0.17.3"
bevy_ecs = "=0.17.3"
bevy_app = "=0.17.3"
bevy_reflect = "=0.17.3"
bevy_state = "=0.17.3"
bevy_input = "=0.17.3"
bevy_time = "=0.17.3"
bevy_asset = "=0.17.3"
bevy_math = "=0.17.3"
bevy_transform = "=0.17.3"
godot = "=0.4.5"
tracing = "=0.1.44"
crossbeam-channel = "=0.5.17"
parking_lot = "=0.12.5"
thiserror = "=2.0.21"
inventory = "=0.3.25"
futures-lite = "=2.6.1"
tracing-subscriber = { version = "=0.3.23", features = ["env-filter"] }
chrono = "0.4"

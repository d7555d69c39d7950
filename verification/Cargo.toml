[package]
name = "lightyear_interpolation"
version = "0.1.0"
edition = "2021"
publish = false

[dependencies]
bevy_ecs = "=0.18.1"
bevy_replicon = { version = "=0.40.4", default-features = false, features = ["client"] }
bevy_utils = "=0.18.1"
tracing = "=0.1.44"

[package]
name = "scope_buffer"
version = "0.1.0"
edition = "2021"
publish = false

[dependencies]
bevy = { version = "=0.15.3", default-features = false, features = ["bevy_core_pipeline", "bevy_gizmos", "bevy_render", "bevy_window"] }
caw = { version = "=0.7.0", features = ["player"] }

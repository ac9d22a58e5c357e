[package]
name = "actor_editor"
version = "0.1.0"
edition = "2021"
publish = false

[dependencies]
meshopt = "0.4"
bevy_ecs = "0.14"
glam = "0.27"
rayon = "1"
ron = "0.8"
serde = { version = "1", features = ["derive"] }
chrono = { version = "0.4", default-features = false, features = ["clock", "std"] }

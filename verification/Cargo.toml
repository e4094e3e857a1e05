[package]
name = "kamplud"
version = "0.1.0"
edition = "2021"
publish = false

[dependencies]
serde = { version = "=1.0.229", features = ["derive"] }
serde_json = "=1.0.154"
toml = "=1.1.8"
bevy = { version = "=0.7.0", default-features = false, features = ["render", "bevy_gltf", "png"] }
bevy_rapier3d = { version = "0.14", default-features = false, features = ["dim3"] }
bevy_egui = { version = "=0.14.0", default-features = false }
bevy_kira_audio = { version = "=0.9.0", default-features = false, features = ["mp3"] }
bevy_obj = "=0.7.0"
iyes_loopless = "=0.6.1"
iyes_progress = "=0.3.0"
bevy-discord-presence = "=0.2.2"
discord-presence = "=0.5.18"

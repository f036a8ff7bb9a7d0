[package]
name = "audio_player"
version = "0.1.0"
edition = "2021"
publish = false

[dependencies]
rand = "=0.9.5"
serde = { version = "1", features = ["derive"] }
serde_json = "1"
rusqlite = { version = "0.41", features = ["bundled"] }
walkdir = "2"
notify = "8"
lofty = "0.25"
symphonia = "0.6"
rodio = "0.23"
souvlaki = "0.9"

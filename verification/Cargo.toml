[package]
name = "some_audiobook_player"
version = "0.1.0"
edition = "2021"
publish = false

[dependencies]
anyhow = "=1.0.104"
async-channel = "=2.5.0"
async-io = "=2.6.0"
directories = "=6.0.0"
eframe = { version = "=0.35.0", default-features = false, features = ["glow", "default_fonts", "x11"] }
futures-lite = "=2.6.1"
image = { version = "=0.25.10", default-features = false, features = ["jpeg", "png"] }
lofty = "=0.24.0"
mp4ameta = "=0.13.0"
mpris-server = { version = "=0.10.0", default-features = false }
rodio = { version = "=0.22.2", default-features = false, features = ["flac", "mp3", "mp4", "vorbis", "wav"] }
rusqlite = { version = "=0.40.2", features = ["bundled"] }
timestretch = "=0.7.0"
walkdir = "=2.5.0"

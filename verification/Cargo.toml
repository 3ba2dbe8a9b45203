[package]
name = "showtime"
version = "0.1.0"
edition = "2021"
publish = false

[dependencies]
midly = "0.5.3"
midir = "0.11.0"
serde = { version = "1", features = ["derive"] }
serde_json = "1"
yaml_serde = "0.10.6"
thiserror = "2"
log = "0.4"
env_logger = { version = "0.11", default-features = false }
tokio = { version = "1.53.1", features = ["rt-multi-thread", "net", "io-util", "time"] }
symphonia = { version = "0.6.1", features = ["mp3", "flac", "wav", "aiff", "ogg", "pcm"] }
rodio = "0.22.2"

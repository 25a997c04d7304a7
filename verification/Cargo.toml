[package]
name = "stereo_mix"
version = "0.1.0"
edition = "2021"
publish = false

[dependencies]
anyhow = "=1.0.104"
chrono = { version = "=0.4.45", features = ["serde"] }
crossbeam-channel = "=0.5.17"
dirs = "=5.0.1"
dirs-next = "2"
egui = "=0.29.1"
fs2 = "=0.4.3"
libpulse-binding = "=2.30.1"
libpulse-simple-binding = "=2.29.0"
mp3lame-encoder = "=0.2.2"
serde = { version = "=1.0.229", features = ["derive"] }
serde_json = "1"
thiserror = "=2.0.21"
tokio = { version = "=1.54.1", features = ["io-util", "macros", "net", "rt-multi-thread", "signal", "sync", "time"] }
toml = "=0.8.23"
tracing = "=0.1.44"
tracing-appender = "=0.2.5"
tracing-subscriber = { version = "=0.3.23", features = ["env-filter"] }

[dev-dependencies]
claxon = "=0.4.3"

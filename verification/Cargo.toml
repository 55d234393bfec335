[package]
name = "whisper_rt"
version = "0.1.0"
edition = "2021"
publish = false

[dependencies]
uuid = { version = "1", features = ["v4"] }
anyhow = "1"
axum = { version = "0.8", features = ["ws"] }
clap = { version = "4", features = ["derive"] }
config = { version = "*", default-features = false, features = ["toml"] }
cpal = "*"
futures-util = { version = "0.3", features = ["sink"] }
rubato = "0.16"
serde = { version = "1", features = ["derive"] }
serde_json = "1"
sherpa-rs = "*"
symphonia = { version = "*", features = ["all"] }
thiserror = "2"
tokio = { version = "1", features = ["full"] }
tracing = "0.1"
tracing-subscriber = { version = "0.3", features = ["env-filter", "json"] }
whisper-rs = "*"

[package]
name = "polyhedron"
version = "0.1.0"
edition = "2021"
publish = false

[dependencies]
anyhow = "1"
async-stream = "0.3"
async-trait = "0.1"
aws-config = { version = "1", features = ["behavior-version-latest"] }
aws-sdk-polly = "1"
aws-sdk-transcribestreaming = "1"
aws-sdk-translate = "1"
base64 = "0.21"
chrono = "0.4"
config = { version = "0.14", default-features = false, features = ["yaml"] }
futures-util = "0.3"
fvad = "0.1"
lazy_static = "1"
once_cell = "1"
poem = "2"
serde = { version = "1", features = ["derive"] }
serde_json = "1"
tokio = { version = "1", features = ["full"] }
tokio-postgres = "0.7"
tokio-stream = "0.1"
tracing = "0.1"
tracing-subscriber = { version = "0.3", features = ["env-filter"] }
whisper-rs = "0.10"

[package]
name = "meetily"
version = "0.1.0"
edition = "2021"
publish = false

[dependencies]
regex = "=1.13.1"
uuid = { version = "=1.29.0", features = ["v4"] }
serde = { version = "=1.0.229", features = ["derive"] }
serde_json = "=1.0.154"
log = "=0.4.35"
chrono = "=0.4.45"
dirs = "=7.0.0"
once_cell = "=1.21.4"
tokio = { version = "=1.54.1", features = ["full"] }
reqwest = { version = "=0.12.28", default-features = false, features = ["json", "multipart", "rustls-tls", "blocking", "stream"] }
anyhow = "=1.0.104"
tracing = "=0.1.44"
futures-util = "=0.3.34"
async-trait = "=0.1.92"
bzip2 = "=0.6.1"
tar = "=0.4.46"
sqlx = { version = "0.8", default-features = false, features = ["sqlite", "runtime-tokio"] }
windows-sys = { version = "0.59", features = ["Win32_Foundation", "Win32_UI_WindowsAndMessaging", "Win32_UI_Input_KeyboardAndMouse"] }
sherpa-onnx = "*"

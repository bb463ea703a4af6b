[package]
name = "signaling"
version = "0.1.0"
edition = "2021"
publish = false

[dependencies]
async-trait = "=0.1.92"
futures-util = "=0.3.34"
tokio = { version = "=1.53.2", features = ["macros", "rt-multi-thread", "sync"] }
tokio-tungstenite = "=0.30.0"
webrtc = "=0.21.0"

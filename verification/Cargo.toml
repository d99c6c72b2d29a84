[package]
name = "ai_reader"
version = "0.1.0"
edition = "2021"
publish = false

[dependencies]
arboard = { version = "=3.7.0", default-features = false }
cpal = "0.15"
tts = "0.26"
whisper-rs = "0.15"

[package]
name = "audio_censor"
version = "0.1.0"
edition = "2021"
publish = false

[dependencies]
anyhow = "1"
hound = "3"
tokio = { version = "1", features = ["macros", "rt-multi-thread", "sync"] }
vosk = "*"

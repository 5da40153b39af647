[package]
name = "music_native"
version = "0.1.0"
edition = "2021"
publish = false

[dependencies]
sha2 = "=0.10.9"
hex = "=0.4.3"
reqwest = { version = "0.13", default-features = false, features = ["stream"] }
serde = { version = "1", features = ["derive"] }
serde_json = "=1.0.154"
tokio = { version = "1", features = ["rt-multi-thread", "sync", "time", "macros"] }
symphonia = "=0.5.5"
ringbuf = "=0.4.8"
stream-download = { version = "=0.24.5", default-features = false, features = ["reqwest", "temp-storage"] }
napi = "=3.16.1"
napi-derive = "=3.7.0"

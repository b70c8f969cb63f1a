[package]
name = "library"
version = "0.1.0"
edition = "2021"
publish = false

[dependencies]
anyhow = "=1.0.104"
async-trait = "=0.1.92"
futures-util = "=0.3.34"
isolang = "=2.4.0"
log = "=0.4.35"
rand = "=0.10.3"
serde = { version = "=1.0.229", features = ["derive"] }
serde_json = "=1.0.154"
tokio = { version = "=1.54.1", features = ["full"] }
unicode-normalization = "=0.1.26"
uuid = { version = "=1.29.0", features = ["v4"] }
fnv = "=1.0.7"
reqwest = { version = "=0.12.28", default-features = false, features = ["json", "rustls-tls"] }
notify = "=8.2.1"
notify-debouncer-full = "=0.7.0"
async-openai = { version = "=0.43.0", features = ["chat-completion"] }
gemini-rust = "=2.1.0"
trash = "=5.2.9"
itertools = "=0.15.0"

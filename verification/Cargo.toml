[package]
name = "open-flow"
version = "0.1.0"
edition = "2021"
publish = false

[dependencies]
anyhow = "1"
arboard = { version = "3", default-features = false }
async-trait = "0.1"
clap = { version = "4", features = ["derive"] }
cocoa = { version = "0.25", default-features = false }
core-foundation = { version = "0.9", default-features = false }
core-graphics = { version = "0.23", default-features = false }
ctrlc = { version = "3", features = ["termination"] }
directories = "6"
hound = "3.5"
libc = "0.2"
ndarray = "*"
objc = "0.2"
ort = { version = "2.0.0-rc.10", default-features = false, features = ["std", "ndarray", "load-dynamic"] }
reqwest = { version = "0.12", default-features = false, features = ["stream", "rustls-tls", "multipart"] }
serde = { version = "1", features = ["derive"] }
serde_json = "1"
tokio = { version = "1", features = ["full"] }
toml = "0.8"
tracing = "0.1"
tracing-subscriber = "0.3"

[package]
name = "way_dictation"
version = "0.1.0"
edition = "2021"
publish = false

[dependencies]
anyhow = "1"
base64 = "0.22"
clap = { version = "4", default-features = false, features = ["std", "derive", "help", "usage", "error-context"] }
ctrlc = "3.4"
dotenvy = "0.15"
env_logger = { version = "0.11", default-features = false }
iced = { version = "0.14", default-features = false, features = ["canvas", "tiny-skia", "thread-pool", "x11"] }
iced_winit = { version = "0.14", default-features = false, features = ["x11"] }
log = "0.4"
reqwest = { version = "0.12", default-features = false, features = ["blocking", "json", "multipart", "rustls-tls"] }
serde = { version = "1", features = ["derive"] }
serde_json = "1"
tungstenite = { version = "0.28", features = ["rustls-tls-webpki-roots"] }

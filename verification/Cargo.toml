[package]
name = "voice_dictate"
version = "0.1.0"
edition = "2021"
publish = false

[dependencies]
anyhow = "1"
arboard = { version = "3", default-features = false }
ashpd = { version = "*", default-features = false, features = ["tokio", "global_shortcuts"] }
cpal = "*"
dirs = "*"
futures-util = "0.3"
global-hotkey = "*"
gtk = "*"
hound = "3"
image = { version = "*", default-features = false, features = ["png"] }
notify-rust = "4"
reqwest = { version = "*", default-features = false, features = ["json", "multipart", "rustls-tls"] }
serde = { version = "1", features = ["derive"] }
serde_json = "1"
tokio = { version = "1", features = ["rt-multi-thread", "time", "macros"] }
toml = "*"
tracing = "0.1"
tracing-subscriber = { version = "0.3", features = ["env-filter", "fmt"] }
tray-icon = "*"
x11rb = { version = "*", features = ["xtest"] }

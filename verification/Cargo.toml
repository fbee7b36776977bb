[package]
name = "printcher"
version = "0.1.0"
edition = "2021"
publish = false

[dependencies]
anyhow = "=1.0.104"
chrono = "=0.4.45"
dirs = "=7.0.0"
percent-encoding = "=2.3.2"
image = { version = "=0.25.10", default-features = false, features = ["png", "jpeg", "webp"] }
serde = { version = "=1.0.229", features = ["derive"] }
toml = "=1.1.8"
x11rb = "=0.14.0"
ashpd = { version = "=0.13.13", features = ["screenshot", "notification", "global_shortcuts", "open_uri"] }
zbus = "=5.19.0"
tokio = { version = "=1.54.1", features = ["rt-multi-thread", "macros"] }
async-channel = "=2.5.0"
futures-util = "=0.3.34"
ksni = "=0.3.7"
gtk4 = { version = "=0.11.5", features = ["v4_12"] }
libadwaita = { version = "=0.9.2", features = ["v1_4"] }

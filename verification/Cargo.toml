[package]
name = "epd_photoframe_server"
version = "0.1.0"
edition = "2021"
publish = false

[dependencies]
ab_glyph = "0.2"
anyhow = "1"
async-trait = "0.1"
axum = "0.8"
chrono = "0.4"
chrono-tz = "0.10"
cron = "*"
cron-lingo = "*"
humantime = "2"
image = { version = "0.25", default-features = false, features = ["jpeg", "png", "webp"] }
rand = "0.9"
reqwest = { version = "0.12", default-features = false, features = ["json", "rustls-tls"] }
rumqttc = { version = "*", default-features = false }
serde = { version = "1", features = ["derive"] }
serde_json = "1"
taffy = "*"
time = "0.3"
tiny-skia = "*"
tokio = { version = "1", features = ["rt-multi-thread", "macros", "net", "sync", "time"] }
toml = "*"
tracing = "0.1"
tracing-subscriber = { version = "0.3", features = ["env-filter"] }

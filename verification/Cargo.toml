[package]
name = "sshell_rs"
version = "0.1.0"
edition = "2021"
publish = false

[dependencies]
anyhow = "1"
async-channel = "2"
chrono = "0.4"
clap = { version = "4", features = ["derive"] }
futures-lite = "2"
gio = "0.20"
glib = "0.20"
gtk4 = "0.9"
gtk4-layer-shell = "0.4"
image = { version = "0.25", default-features = false, features = ["jpeg", "png", "gif", "webp"] }
serde = { version = "1", features = ["derive"] }
serde_json = "1"
tokio = { version = "1", features = ["rt"] }
tracing = "0.1"
tracing-subscriber = { version = "0.3", features = ["env-filter"] }
zbus = "4"

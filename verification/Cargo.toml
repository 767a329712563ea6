[package]
name = "sshtunnel_manager"
version = "0.1.0"
edition = "2021"
publish = false

[dependencies]
anyhow = "1"
serde_json = "1"
zbus = "4"
tokio = { version = "1", features = ["macros", "rt-multi-thread", "signal"] }
clap = { version = "4", features = ["derive"] }
gtk4 = "0.9"
libadwaita = "0.7"
glib = "0.20"

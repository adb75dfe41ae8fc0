[package]
name = "krunner_zed"
version = "0.1.0"
edition = "2021"
publish = false

[dependencies]
freedesktop-desktop-entry = "*"
dirs = "*"
xdg = "*"
rusqlite = { version = "*", features = ["bundled"] }
tokio = { version = "1", features = ["macros", "rt-multi-thread", "sync", "time"] }
zbus = "*"

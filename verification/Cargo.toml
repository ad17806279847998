[package]
name = "lightning_dictionary"
version = "0.1.0"
edition = "2021"
publish = false

[dependencies]
urlencoding = "=2.1.3"
serde = { version = "=1.0.229", features = ["derive"] }
serde_json = "=1.0.154"
reqwest = { version = "=0.12.28", default-features = false, features = ["json"] }
tokio = { version = "=1.54.1", features = ["rt-multi-thread", "time", "sync"] }
tauri = { version = "2", default-features = false }
tauri-plugin-global-shortcut = "2"
arboard = { version = "3", default-features = false }

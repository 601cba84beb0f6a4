[package]
name = "flashcards"
version = "0.1.0"
edition = "2021"
publish = false

[dependencies]
serde = { version = "=1.0.229", features = ["derive"] }
serde_json = { version = "=1.0.154", features = ["preserve_order"] }
chrono = "=0.4.45"
rusqlite = { version = "=0.41.1", features = ["bundled"] }
thiserror = "=2.0.21"

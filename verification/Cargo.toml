[package]
name = "lings"
version = "0.1.0"
edition = "2021"
publish = false

[dependencies]
lofty = "0.22"
parking_lot = "0.12"
roxmltree = "0.20"
rusqlite = { version = "0.32", features = ["bundled"] }
serde = { version = "1", features = ["derive"] }
walkdir = "2"

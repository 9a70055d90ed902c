[package]
name = "baby_tracker"
version = "0.1.0"
edition = "2021"
publish = false

[dependencies]
chrono = "*"
clap = { version = "*", features = ["derive"] }
directories = "*"
rusqlite = { version = "*", features = ["bundled"] }
tabled = "*"
wasm-bindgen = "*"

[dev-dependencies]
serde_json = "*"

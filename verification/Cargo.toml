[package]
name = "steady_ga"
version = "0.1.0"
edition = "2021"
publish = false

[dependencies]
rand = "0.8"
pathfinding = "*"
serde = { version = "1", features = ["derive"] }
serde_json = "1"
csv = "1"
bytes = "1"
wasm-bindgen = "*"

[package]
name = "dialogue_graph"
version = "0.1.0"
edition = "2021"
publish = false

[dependencies]
petgraph = { version = "0.6", default-features = false, features = ["serde-1"] }
serde = { version = "1", features = ["derive"] }

[package]
name = "tree-doc-core"
version = "0.1.0"
edition = "2021"
publish = false

[dependencies]
serde_json = "1"
petgraph = "0.6"
jsonschema = { version = "*", default-features = false }
serde = { version = "1", features = ["derive"] }
clap = { version = "4", features = ["derive"] }
colored = "2"
wasm-bindgen = "0.2"
serde-wasm-bindgen = "0.6"

[package]
name = "postcard-bindgen-core"
version = "0.1.0"
edition = "2021"
publish = false

[dependencies]
convert_case = "=0.6.0"
heapless = "=0.8.0"
tree-ds = { version = "=0.2.0", features = ["auto_id"] }

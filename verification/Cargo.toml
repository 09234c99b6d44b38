[package]
name = "appledb_api"
version = "0.1.0"
edition = "2021"
publish = false

[dependencies]
serde = { version = "1", features = ["derive"] }
serde_json = "1"
url = "2"
walkdir = "2"
peak_alloc = "*"
struct-field-names-as-array = "*"
structstruck = "*"

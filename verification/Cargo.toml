[package]
name = "alfred_vue_docs"
version = "0.1.0"
edition = "2021"
publish = false

[dependencies]
alfred_workflow_rs = "*"
anyhow = "*"
htmlize = { version = "*", features = ["unescape"] }
url = "*"
serde = { version = "1", features = ["derive"] }
serde_json = "1"

[package]
name = "kohonen"
version = "0.1.0"
edition = "2021"
publish = false

[dependencies]
rand = "0.6"
csv = "1"
structopt = "0.3"
serde = { version = "1", features = ["derive"] }
serde_json = "1"
dont_disappear = "*"

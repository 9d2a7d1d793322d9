[package]
name = "dot_jaeger"
version = "0.1.0"
edition = "2021"
publish = false

[dependencies]
anyhow = "*"
argh = "*"
ascii = "*"
ctrlc = "*"
env_logger = "*"
hex = "*"
jod-thread = "*"
log = "*"
prometheus = "*"
serde = { version = "*", features = ["derive"] }
serde_json = "*"
tiny_http = "*"
ureq = { version = "*", features = ["json"] }

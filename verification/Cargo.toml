[package]
name = "lspc"
version = "0.1.0"
edition = "2021"
publish = false

[dependencies]
url = "*"
crossbeam = "*"
lsp-types = "*"
serde = { version = "*", features = ["derive"] }
serde_json = "*"
log = "*"

[package]
name = "tabula"
version = "0.1.0"
edition = "2021"
publish = false

[dependencies]
globset = "=0.4.21"
regex = "=1.13.1"
shell-words = "=1.1.1"
serde_json = "=1.0.154"
clap = { version = "=4.6.7", features = ["derive"] }
rustyline = "*"

[package]
name = "claudexor-linux"
version = "0.1.0"
edition = "2021"
publish = false

[dependencies]
serde = { version = "=1.0.229", features = ["derive"] }
serde_json = "=1.0.154"
ureq = { version = "=3.5.1", default-features = false, features = ["json"] }
dirs = "=6.0.0"
libc = "=0.2.191"

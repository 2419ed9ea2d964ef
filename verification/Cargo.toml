[package]
name = "sqe_core"
version = "0.1.0"
edition = "2021"
publish = false

[dependencies]
serde_json = "=1.0.154"
qrcode = { version = "=0.14.1", default-features = false }
clap = { version = "=4.6.7", features = ["derive"] }
gtk4 = "0.6"
webkit6 = "0.1"
glib = "0.17"

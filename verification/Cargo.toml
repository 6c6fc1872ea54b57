[package]
name = "payme-qr"
version = "0.1.0"
edition = "2021"
publish = false

[dependencies]
anyhow = "1"
chrono = { version = "0.4", default-features = false, features = ["alloc"] }
clap = { version = "4", features = ["derive"] }
image = { version = "0.25", default-features = false, features = ["png"] }
qrcode = { version = "0.14", default-features = false }
ratatui = "0.29"
unicode-normalization = "0.1"

[dev-dependencies]
rqrr = "0.8"

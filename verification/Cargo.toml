[package]
name = "pandorust"
version = "0.1.0"
edition = "2021"
publish = false

[dependencies]
comrak = { version = "*", default-features = false }
serde_yaml = "*"
docx-rs = "*"
clap = { version = "*", features = ["derive"] }

[dev-dependencies]
zip = "*"

[package]
name = "salvis"
version = "0.1.0"
edition = "2021"
publish = false

[dependencies]
anyhow = "1"
clap = { version = "4", features = ["derive"] }
pdf-writer = "0.12"
playwright-rs = "*"
serde = { version = "1", features = ["derive"] }
serde_json = "1"
svg2pdf = "0.13"
tokio = { version = "1", features = ["macros", "rt-multi-thread", "time"] }

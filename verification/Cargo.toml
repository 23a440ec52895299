[package]
name = "rustwave-bot"
version = "0.1.0"
edition = "2021"
publish = false

[dependencies]
color-eyre = { version = "*", default-features = false }
flexi_logger = "*"
image = { version = "*", default-features = false, features = ["png"] }
itertools = "*"
log = "*"
mc-rcon = "*"
poise = "*"
sea-orm = { version = "*", features = ["sqlx-sqlite", "runtime-tokio-rustls", "macros"] }
serde = { version = "*", features = ["derive"] }
serde_json = "*"
serenity = "*"
tokio = { version = "*", features = ["macros", "rt-multi-thread", "fs"] }

[package]
name = "cph_tools"
version = "0.1.0"
edition = "2021"
publish = false

[dependencies]
crc32fast = "*"
regex-syntax = "*"
regex = "*"
normalize-path = "*"
anyhow = "*"
clap = { version = "4", features = ["derive"] }
serde = { version = "1", features = ["derive"] }
serde_json = "1"
toml = "*"
tokio = { version = "1", features = ["full"] }
axum = "*"
reqwest = { version = "*", default-features = false }
log = "*"
fs2 = "*"
dirs = "*"
lazy_static = "*"
once_cell = "*"
ratatui = "*"
color-eyre = "*"
singleflight = "*"
uuid = { version = "*", features = ["v4"] }
tracing-subscriber = "*"
hotwatch = "*"
async-trait = "*"
cli-clipboard = "*"

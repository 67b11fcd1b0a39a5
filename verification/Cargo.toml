[package]
name = "zed_discord_rpc"
version = "0.1.0"
edition = "2021"
publish = false

[dependencies]
dirs = "*"
serde = { version = "1", features = ["derive"] }
serde_json = "1"
discord-rich-presence = "*"
zed_extension_api = "*"

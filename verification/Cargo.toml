[package]
name = "rust_wg"
version = "0.1.0"
edition = "2021"
publish = false

[dependencies]
anyhow = "1"
clap = { version = "4", features = ["derive"] }
futures = "0.3"
hex = "0.4"
ipnet = "2"
libc = "0.2"
rtnetlink = "*"
serde = { version = "1", features = ["derive"] }
serde_json = "1"
sha2 = "0.10"
tokio = { version = "1", features = ["macros", "rt-multi-thread", "signal"] }
toml = "*"
uuid = { version = "1", features = ["v4"] }

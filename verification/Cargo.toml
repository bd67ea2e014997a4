[package]
name = "hurlbox"
version = "0.1.0"
edition = "2021"
publish = false

[dependencies]
hurl = "=4.3.0"
hurl_core = "=4.3.0"
libxml = "=0.3.3"
serde = { version = "=1.0.229", features = ["derive"] }
serde_json = "=1.0.154"
warp = "=0.3.7"
tokio = { version = "=1.54.1", features = ["macros", "rt-multi-thread"] }
clap = { version = "=4.6.7", features = ["derive"] }
dotenvy = "=0.15.7"
ignore = "=0.4.34"

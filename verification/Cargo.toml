[package]
name = "vmmd"
version = "0.1.0"
edition = "2021"
publish = false

[dependencies]
quick-xml = { version = "0.31", features = ["serialize"] }
serde = { version = "1", features = ["derive"] }
rtnetlink = "0.11"
tokio = { version = "1", features = ["macros", "rt-multi-thread"] }
futures-util = "0.3"
log = "0.4"
simplelog = "0.12"

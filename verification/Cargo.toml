[package]
name = "idp_core"
version = "0.1.0"
edition = "2021"
publish = false

[dependencies]
ring = "*"
data-encoding = "*"
chrono = "*"
clap = { version = "*", features = ["derive"] }
tokio = { version = "*", features = ["macros", "rt-multi-thread"] }

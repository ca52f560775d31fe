[package]
name = "nfe_intake"
version = "0.1.0"
edition = "2021"
publish = false

[dependencies]
clap = { version = "*", features = ["derive"] }
notify = "*"
tokio = { version = "*", features = ["rt-multi-thread", "macros", "sync"] }

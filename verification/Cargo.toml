[package]
name = "bite"
version = "0.1.0"
edition = "2021"
publish = false

[dependencies]
aws-config = "=1.13.0"
clap = { version = "=4.6.7", features = ["derive"] }
color-eyre = "=0.6.5"
home = "=0.5.12"
indicatif = "=0.17.11"
tokio = { version = "=1.54.1", features = ["macros", "net", "rt-multi-thread", "time"] }

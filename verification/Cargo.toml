[package]
name = "bandwhich_bootstrap"
version = "0.1.0"
edition = "2021"
publish = false

[dependencies]
pnet_bandwhich_fork = "*"
signal-hook = "*"
termion = "*"
tokio = { version = "*", features = ["rt-multi-thread"] }

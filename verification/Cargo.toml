[package]
name = "rustmpx"
version = "0.1.0"
edition = "2021"
publish = false

[dependencies]
anyhow = "1"
clap = { version = "4", features = ["derive"] }
cpal = "0.15"
hound = "3.5"
image = "0.24"
ringbuf = "0.3"
symphonia = "0.5"
tokio = { version = "1", features = ["rt-multi-thread", "macros", "time"] }

[package]
name = "asitop"
version = "0.1.0"
edition = "2021"
publish = false

[dependencies]
anyhow = "=1.0.104"
clap = { version = "=4.6.7", features = ["derive"] }
crossterm = "=0.29.0"
plist = "=1.10.3"
ratatui = "=0.30.2"
sysinfo = "0.38"
tempfile = "=3.27.0"

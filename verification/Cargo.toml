[package]
name = "jgrep"
version = "0.1.0"
edition = "2021"
publish = false

[dependencies]
jaq-core = "=3.1.2"
jaq-std = "=3.0.4"
jaq-json = { version = "=2.0.3", features = ["serde"] }
yaml_serde = "=0.10.7"
serde = "=1.0.229"
walkdir = "=2.5.0"
clap = { version = "=4.6.7", features = ["derive"] }
clap_complete = "=4.6.11"
crossterm = "=0.28.1"
ratatui = "=0.29.0"

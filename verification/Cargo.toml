[package]
name = "scaffolder"
version = "0.1.0"
edition = "2021"
publish = false

[dependencies]
serde_yaml = "*"
cli-clipboard = "*"
crossterm = "*"
ratatui = "*"
user-error = "*"

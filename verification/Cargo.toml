[package]
name = "password_manager"
version = "0.1.0"
edition = "2021"
publish = false

[dependencies]
crossterm = "0.27"
ratatui = "0.26"
serde = "1"
serde_derive = "1"
serde_json = "1"

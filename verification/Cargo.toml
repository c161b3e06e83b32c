[package]
name = "email_picker"
version = "0.1.0"
edition = "2021"
publish = false

[dependencies]
regex = "1"
crossterm = "*"
ratatui = "*"
dirs = "*"

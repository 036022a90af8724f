[package]
name = "pacmanman"
version = "0.1.0"
edition = "2021"
publish = false

[dependencies]
catppuccin = "2"
color-eyre = "0.6"
confy = "0.6"
crossterm = "0.27"
ratatui = "0.26"
serde = { version = "1", features = ["derive"] }
tui-input = "0.8"

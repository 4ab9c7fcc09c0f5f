[package]
name = "grid_games"
version = "0.1.0"
edition = "2021"
publish = false

[dependencies]
rand = "*"
crossterm = "*"
clearscreen = "*"
ratatui = "*"
clap = { version = "*", features = ["derive"] }
serde = { version = "*", features = ["derive"] }
mlua = { version = "*", features = ["lua54", "vendored", "serialize"] }

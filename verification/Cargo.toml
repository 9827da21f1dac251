[package]
name = "diane"
version = "0.1.0"
edition = "2021"
publish = false

[dependencies]
chrono = "0.4"
clap = { version = "4", features = ["derive"] }
crossterm = "*"
dirs = "*"
envy = "*"
ratatui = "*"
ratatui-textwrap = "*"
regex = "1"
serde = { version = "1", features = ["derive"] }
tempfile = "3"
tui-markdown = "*"

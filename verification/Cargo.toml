[package]
name = "wg_tui"
version = "0.1.0"
edition = "2021"
publish = false

[dependencies]
zip = { version = "*", default-features = false, features = ["deflate"] }
ratatui = "*"
crossterm = "*"
clap = { version = "*", features = ["derive"] }
color-eyre = "*"
nix = { version = "*", features = ["user"] }
thiserror = "*"

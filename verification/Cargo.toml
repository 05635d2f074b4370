[package]
name = "machina"
version = "0.1.0"
edition = "2021"
publish = false

[dependencies]
crossterm = "*"
log = "*"
nix = { version = "*", features = ["ptrace", "process"] }
procfs = "*"
ratatui = "*"

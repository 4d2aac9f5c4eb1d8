[package]
name = "pi"
version = "0.1.0"
edition = "2021"
publish = false

[dependencies]
anyhow = "1"
argh = "*"
command-ext = "*"
defer = "*"
home = "*"
nix = { version = "*", features = ["user"] }
sealed = "*"
sliding_windows = "*"
tempfile = "3"

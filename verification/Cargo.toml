[package]
name = "procinject"
version = "0.1.0"
edition = "2021"
publish = false

[dependencies]
nix = { version = "*", features = ["ptrace", "process", "signal"] }
libc = "*"
clap = { version = "*", features = ["derive"] }

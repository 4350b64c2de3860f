[package]
name = "pm"
version = "0.1.0"
edition = "2021"
publish = false

[dependencies]
bincode = "2"
nix = { version = "*", features = ["signal", "process", "time"] }
daemonize = "*"
signal-hook = "*"

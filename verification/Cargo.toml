[package]
name = "stderrlog"
version = "0.1.0"
edition = "2021"
publish = false

[dependencies]
chrono = "*"
log = { version = "*", features = ["std"] }
termcolor = "*"
thread_local = "*"

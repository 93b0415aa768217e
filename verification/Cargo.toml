[package]
name = "fuzzcheck"
version = "0.1.0"
edition = "2021"
publish = false

[dependencies]
fastrand = "1"
termion = "1.5"
tui = { version = "0.15", default-features = false, features = ["termion"] }

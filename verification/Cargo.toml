[package]
name = "leaderboard"
version = "0.1.0"
edition = "2021"
publish = false

[dependencies]
log = "=0.4.34"
mysql = { version = "=28.0.3", default-features = false, features = ["minimal-rust"] }
simple_logger = "=5.2.0"
systemd-journal-logger = "=2.2.2"

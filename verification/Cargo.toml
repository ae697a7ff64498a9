[package]
name = "cacutils"
version = "0.1.0"
edition = "2021"
publish = false

[dependencies]
chrono = "=0.4.45"
dirs = "=7.0.0"
sys-info = "=0.9.1"
users = "=0.11.0"
whoami = "=1.6.1"

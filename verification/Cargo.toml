[package]
name = "dotfiles"
version = "0.1.0"
edition = "2021"
publish = false

[dependencies]
age = { version = "0.10", features = ["ssh"] }
anyhow = "1"
base64 = "0.22"
clap = { version = "4", features = ["derive"] }
dirs = "5"
itertools = "0.12"
pathbuf = "*"
thiserror = "1"

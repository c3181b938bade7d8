[package]
name = "oxide_ssh"
version = "0.1.0"
edition = "2021"
publish = false

[dependencies]
uuid = { version = "1", features = ["v4"] }
secrecy = "0.10"
unicode-segmentation = "1"
serde = { version = "1", features = ["derive"] }
serde_json = "1"
tempfile = "3"
thiserror = "2"
bytes = "1"
smallvec = "1"
parking_lot = "0.12"
async-channel = "2"
tokio = { version = "1", features = ["rt-multi-thread", "time", "sync", "macros"] }
tokio-util = "0.7"
alacritty_terminal = "*"
russh = "*"
keyring = "*"
directories = "*"
sys-locale = "0.3"

[package]
name = "lazyscript"
version = "0.1.0"
edition = "2021"
publish = false

[dependencies]
anyhow = "1"
arboard = { version = "3", default-features = false }
base64 = "0.22"
clap = { version = "4", features = ["derive"] }
nix = { version = "0.30", features = ["signal", "process"] }
notify = "8"
portable-pty = "0.9"
ratatui = "0.30"
serde = { version = "1", features = ["derive"] }
serde_json = { version = "1", features = ["preserve_order"] }
tokio = { version = "1", features = ["full"] }
vt100 = "0.16"

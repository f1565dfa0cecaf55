[package]
name = "cuet"
version = "0.1.0"
edition = "2021"
publish = false

[dependencies]
clap = { version = "4", features = ["derive"] }
clap_complete = { version = "4", features = ["unstable-dynamic"] }
humantime = "2"
indicatif = "*"
inquire = "*"
libc = "0.2"
miette = "7"
owo-colors = "4"
serde = { version = "1", features = ["derive"] }
serde_json = "1"
shell-words = "1"
wait-timeout = "0.2"
which = "*"

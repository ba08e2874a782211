[package]
name = "wrash"
version = "0.1.0"
edition = "2021"
publish = false

[dependencies]
glob = "*"
clap = { version = "*", features = ["derive"] }
ctrlc = "*"
directories = "*"
dirs = "*"
faccess = "*"
serde = { version = "*", features = ["derive"] }
serde_yaml = "*"
shlex = "*"
termion = "*"

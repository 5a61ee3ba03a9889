[package]
name = "rhiza"
version = "0.1.0"
edition = "2021"
publish = false

[dependencies]
chrono = "*"
clap = "*"
colored = "*"
ignore = "*"
indicatif = "*"
inquire = "*"
lnk_parser = "*"
mslnk = "*"
num_cpus = "*"
serde = { version = "*", features = ["derive"] }
serde_derive = "*"
serde_json = "*"
shellexpand = "*"
walkdir = "*"
which = "*"
winapi = { version = "*", features = ["winuser", "minwindef"] }
winreg = "*"

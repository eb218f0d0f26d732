[package]
name = "compactor"
version = "0.1.0"
edition = "2021"
publish = false

[dependencies]
siphasher = "=0.3.11"
globset = "=0.4.20"
humansize = "=1.1.1"
crossbeam-channel = "=0.5.17"
filesize = "=0.2.0"
ignore = "=0.4.33"
fs2 = "=0.4.3"
serde = { version = "=1.0.229", features = ["derive"] }
serde_json = "=1.0.154"
directories = "=6.0.0"
lz4 = "=1.28.1"
filetime = "0.2"
ctrlc = "3"
open = "*"

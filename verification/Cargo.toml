[package]
name = "encrypter"
version = "0.1.0"
edition = "2021"
publish = false

[dependencies]
aes-soft = "0.6"
x25519-dalek = "0.6"
rand = "0.7"
async-std = "1"
futures = "0.3"
crossbeam-channel = "0.4"
log = "0.4"
simplelog = "0.7"
termion = "1.5"
tui = "0.8"

[dev-dependencies]
bincode = "1"
serde = "1"

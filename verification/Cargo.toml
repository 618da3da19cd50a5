[package]
name = "speakersafetyd"
version = "0.1.0"
edition = "2021"
publish = false

[dependencies]
alsa = "0.8"
chrono = "0.4"
clap = { version = "4", features = ["derive"] }
clap-verbosity-flag = "2"
configparser = "3"
json = "0.12"
libc = "0.2"
log = "0.4"
signal-hook = "0.3"
simple_logger = "4"

[package]
name = "ihex_link"
version = "0.1.0"
edition = "2021"
publish = false

[dependencies]
simple-error = "0.2"
serialport = { version = "3", default-features = false }
structopt = "0.3"
indicatif = "0.15"
termion = "1.5"
log = "0.4"
env_logger = "0.7"

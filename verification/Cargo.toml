[package]
name = "irc_log_manager"
version = "0.1.0"
edition = "2021"
publish = false

[dependencies]
clap = "2"
failure = "0.1"
memmap = "0.7"
rayon = "1"
regex = "1"

[package]
name = "pcap2socks"
version = "0.1.0"
edition = "2021"
publish = false

[dependencies]
env_logger = "0.7"
log = "0.4"

[package]
name = "cobweb_core"
version = "0.1.0"
edition = "2021"
publish = false

[dependencies]
regex = "1"
rand = "0.8"
chrono = "0.4"
clap = "2"
yansi = "0.5"
tempfile = "3"
user = "*"

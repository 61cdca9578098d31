[package]
name = "mediatable"
version = "0.1.0"
edition = "2021"
publish = false

[dependencies]
json = "0.12"
clap = "2"
threadpool = "1.8"
walkdir = "2"

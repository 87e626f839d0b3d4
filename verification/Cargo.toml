[package]
name = "feaders"
version = "0.2.0"
edition = "2021"
publish = false

[dependencies]
regex = "1"
walkdir = "2"
threadpool = "1"
getopts = "0.2"
yaml-rust = "0.4"

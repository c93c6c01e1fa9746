[package]
name = "suite_builder"
version = "0.1.0"
edition = "2021"
publish = false

[dependencies]
walkdir = "2"
tester = "0.9"

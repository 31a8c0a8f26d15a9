[package]
name = "raw_workbench"
version = "0.1.0"
edition = "2021"
publish = false

[dependencies]
hound = "3.5"

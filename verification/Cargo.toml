[package]
name = "obsidian-sqlite-vtab"
version = "0.1.0"
edition = "2021"
publish = false

[dependencies]
anyhow = "1"
sqlite-loadable = "*"
walkdir = "2"

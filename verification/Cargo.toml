[package]
name = "tree_walk"
version = "0.1.0"
edition = "2021"
publish = false

[dependencies]
peekmore = "=1.3.0"

[package]
name = "context_map"
version = "0.1.0"
edition = "2021"
publish = false

[dependencies]
tree-sitter = "0.22"
tree-sitter-typescript = "0.21"
walkdir = "2"
clap = { version = "4", features = ["derive"] }

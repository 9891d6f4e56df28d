[package]
name = "patchlight"
version = "0.1.0"
edition = "2021"
publish = false

[dependencies]
tree-sitter = "=0.27.1"
tree-sitter-c = "=0.24.2"
tree-sitter-highlight = "=0.27.1"

[package]
name = "diag_to_proto"
version = "0.1.0"
edition = "2021"
publish = false

[dependencies]
lsp-types = "=0.95.1"
anyhow = "=1.0.104"

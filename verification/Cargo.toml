[package]
name = "hocon_lsp"
version = "0.1.0"
edition = "2021"
publish = false

[dependencies]
rowan = "*"
async-lsp = "0.2"
lsp-types = "0.95"
futures = "0.3"
indexmap = "2"
ahash = "0.8"
derive_more = { version = "*", features = ["deref", "deref_mut"] }

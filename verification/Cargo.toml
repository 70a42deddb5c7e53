[package]
name = "code_context"
version = "0.1.0"
edition = "2021"
publish = false

[dependencies]
tree-sitter = "0.20"
tree-sitter-typescript = "0.20"
scip = "*"
gix = "*"
lsp-server = "*"
lsp-types = "*"
serde = { version = "*", features = ["derive"] }
serde_json = "*"
url = "*"
anyhow = "*"

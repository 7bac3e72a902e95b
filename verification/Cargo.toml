[package]
name = "odoo_ls_core"
version = "0.1.0"
edition = "2021"
publish = false

[dependencies]
lsp-types = "=0.97.0"
roxmltree = "=0.21.2"
ruff_python_ast = "<0.0.10"
ruff_text_size = "<0.0.10"
weak-table = "=0.4.0"
tracing = "=0.1.44"

[package]
name = "antenna"
version = "0.1.0"
edition = "2021"
publish = false

[dependencies]
tree-sitter = "=0.27.0"
tree-sitter-rust = "=0.24.2"
tree-sitter-python = "=0.25.0"
tree-sitter-typescript = "=0.23.2"
tree-sitter-javascript = "=0.25.0"
tree-sitter-go = "=0.25.0"
tree-sitter-cpp = "=0.23.4"
tree-sitter-java = "=0.23.5"
tree-sitter-c = "=0.24.2"
tree-sitter-ruby = "=0.23.1"
tree-sitter-html = "=0.23.2"
tree-sitter-css = "=0.25.0"
tree-sitter-swift = "=0.7.4"
tree-sitter-c-sharp = "=0.23.5"
tree-sitter-json = "=0.24.8"
tree-sitter-yaml = "=0.7.2"
glob = "=0.3.4"
serde = { version = "=1.0.229", features = ["derive"] }
serde_json = "=1.0.151"
serde_yaml = "=0.9.34"
clap = { version = "=4.6.7", features = ["derive", "env"] }
csv = "=1.4.0"
rayon = "=1.12.0"
git2 = { version = "=0.21.0", default-features = false }

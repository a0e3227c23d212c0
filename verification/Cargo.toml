[package]
name = "tree-grepper"
version = "2.5.0"
edition = "2021"
publish = false

[dependencies]
anyhow = "=1.0.104"
bump_alloc = "=0.1.0"
clap = { version = "=3.2.25", features = ["cargo"] }
crossbeam = "=0.8.5"
ignore = "=0.4.33"
itertools = "=0.10.5"
rayon = "=1.12.0"
serde = { version = "=1.0.229", features = ["derive"] }
serde_json = "=1.0.154"
tree-sitter = "=0.25.10"
tree-sitter-c = "=0.24.2"
tree-sitter-cpp = "=0.23.4"
tree-sitter-elixir = "=0.3.5"
tree-sitter-elm = "=5.9.4"
tree-sitter-go = "=0.25.0"
tree-sitter-haskell = "=0.24.1"
tree-sitter-java = "=0.23.5"
tree-sitter-javascript = "=0.25.0"
tree-sitter-md = "=0.5.4"
tree-sitter-nix = "=0.3.0"
tree-sitter-php = "=0.25.1"
tree-sitter-python = "=0.25.0"
tree-sitter-ruby = "=0.23.1"
tree-sitter-rust = "=0.24.2"
tree-sitter-typescript = "=0.23.2"

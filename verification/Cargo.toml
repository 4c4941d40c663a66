[package]
name = "vimtelligence"
version = "0.1.0"
edition = "2021"
publish = false

[dependencies]
ropey = "1.6"
tree-sitter = "*"
tree-sitter-language-pack = "*"
crossterm = { version = "0.28", features = ["event-stream"] }
ratatui = "0.29"
tokio = { version = "1", features = ["rt-multi-thread", "macros", "sync", "time"] }
futures = "0.3"
anyhow = "1"

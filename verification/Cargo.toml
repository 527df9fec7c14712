[package]
name = "pyrogen"
version = "0.1.0"
edition = "2021"
publish = false

[dependencies]
globset = "=0.4.20"
toml = "=1.1.6"
rustpython-parser = { version = "=0.4.0", features = ["full-lexer"] }

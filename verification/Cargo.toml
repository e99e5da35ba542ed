[package]
name = "text_components"
version = "0.1.0"
edition = "2021"
publish = false

[dependencies]
simdnbt = "=0.4.2"
uuid = "=1.29.0"
unicode-ident = "=1.0.27"
annotate-snippets = "=0.12.17"
colored = "=3.1.1"
serde = { version = "=1.0.229", features = ["derive"] }

[dev-dependencies]
serde_json = "=1.0.154"

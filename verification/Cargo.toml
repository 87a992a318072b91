[package]
name = "markdown_inliner"
version = "0.1.0"
edition = "2021"
publish = false

[dependencies]
anyhow = "=1.0.104"
comrak = { version = "=0.26.0", default-features = false }
ego-tree = "=0.6.3"
extism-pdk = "=1.4.1"
logic_based_learning_paths = "=0.0.2"
regex = "=1.13.1"
schemars = "=0.8.22"
scraper = { version = "=0.19.1", default-features = false, features = ["deterministic"] }
serde_json = "=1.0.154"

[dev-dependencies]
base64 = "=0.21.7"
